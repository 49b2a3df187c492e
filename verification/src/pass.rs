//! One pass of claims over a frame.
//!
//! After the counter was reset, and as long as the controller leaves the
//! buffer alone, the claims of all workers together draw the tickets 0, 1, 2
//! and so on, however their commits fall in between. While tickets are below
//! the number of rows each claim names a row, under the snapshot of the
//! buffer as it was at the reset; from then on every claim idles. The rows
//! named in one pass are all the rows of the raster, each of them once,
//! unless the number of rows is a multiple of the stride.

use crate::history::{after_steps, Step};
use crate::interlace::{
    lemma_every_row_has_a_ticket, lemma_tickets_hit_distinct_rows, row_is_covered, row_of_ticket,
    ROW_STRIDE,
};
use crate::raster::{Claim, RasterState};
use vstd::arithmetic::div_mod::lemma_mod_bound;
use vstd::prelude::*;

verus! {

/// Whether every operation of a sequence is a worker's: a claim or a commit.
pub open spec fn only_workers(steps: Seq<Step>) -> bool {
    forall|k: int| 0 <= k < steps.len() ==> (#[trigger] steps[k] is Claim) || steps[k] is Commit
}

/// How many operations of a sequence are claims.
pub open spec fn claims_in(steps: Seq<Step>) -> nat
    decreases steps.len(),
{
    if steps.len() == 0 {
        0
    } else {
        claims_in(steps.drop_last()) + if steps.last() is Claim {
            1nat
        } else {
            0nat
        }
    }
}

/// While only workers touch the buffer after a reset, the counter is the
/// number of claims made so far, and viewport, size and iteration budget stay
/// as they were. This holds up to one claim past the last row.
pub proof fn lemma_counter_counts_claims(state: RasterState, steps: Seq<Step>)
    requires
        !state.shutting_down,
        state.row_claim_counter == 0,
        only_workers(steps),
        claims_in(steps) <= state.size.h,
    ensures
        after_steps(state, steps).row_claim_counter == claims_in(steps),
        after_steps(state, steps).snapshot() == state.snapshot(),
        !after_steps(state, steps).shutting_down,
    decreases steps.len(),
{
    if steps.len() > 0 {
        let earlier = steps.drop_last();
        assert forall|k: int| 0 <= k < earlier.len() implies (#[trigger] earlier[k] is Claim)
            || earlier[k] is Commit by {
            assert(earlier[k] == steps[k]);
        }
        assert(steps.last() == steps[steps.len() - 1]);
        lemma_counter_counts_claims(state, earlier);
    }
}

/// While only workers touch the buffer after a reset, the next claim after
/// `n` earlier ones, for `n` below the number of rows, names the row of
/// ticket `n` under the snapshot taken at the reset.
pub proof fn lemma_next_claim_of_pass(state: RasterState, steps: Seq<Step>)
    requires
        !state.shutting_down,
        state.row_claim_counter == 0,
        only_workers(steps),
        claims_in(steps) < state.size.h,
    ensures
        after_steps(state, steps).claim_outcome() == (Claim::Row {
            row: row_of_ticket(claims_in(steps) as int, state.size.h as int) as u32,
            snapshot: state.snapshot(),
        }),
        0 <= row_of_ticket(claims_in(steps) as int, state.size.h as int) < state.size.h,
{
    lemma_counter_counts_claims(state, steps);
    lemma_mod_bound(claims_in(steps) * ROW_STRIDE as int, state.size.h as int);
}

/// Once the claims of a pass have drawn as many tickets as there are rows,
/// every further claim idles, for as long as only workers touch the buffer.
pub proof fn lemma_claims_idle_after_pass(state: RasterState, steps: Seq<Step>)
    requires
        !state.shutting_down,
        state.row_claim_counter == 0,
        only_workers(steps),
        claims_in(steps) >= state.size.h,
    ensures
        after_steps(state, steps).claim_outcome() == Claim::Idle,
        after_steps(state, steps).row_claim_counter >= state.size.h,
        after_steps(state, steps).size == state.size,
        !after_steps(state, steps).shutting_down,
    decreases steps.len(),
{
    if steps.len() > 0 {
        let earlier = steps.drop_last();
        assert forall|k: int| 0 <= k < earlier.len() implies (#[trigger] earlier[k] is Claim)
            || earlier[k] is Commit by {
            assert(earlier[k] == steps[k]);
        }
        assert(steps.last() == steps[steps.len() - 1]);
        if claims_in(earlier) >= state.size.h {
            lemma_claims_idle_after_pass(state, earlier);
        } else {
            lemma_counter_counts_claims(state, earlier);
        }
    }
}

/// No row is claimed twice in one pass, where the number of rows is not a
/// multiple of the stride: two claims that name the same row, each made
/// while only workers touched the buffer after the reset, are the same claim
/// of the pass.
pub proof fn lemma_no_row_is_claimed_twice(state: RasterState, first: Seq<Step>, second: Seq<Step>)
    requires
        !state.shutting_down,
        state.row_claim_counter == 0,
        state.size.h % ROW_STRIDE != 0,
        only_workers(first),
        only_workers(second),
        claims_in(first) < state.size.h,
        claims_in(second) < state.size.h,
        after_steps(state, first).claim_outcome() == after_steps(state, second).claim_outcome(),
    ensures
        claims_in(first) == claims_in(second),
{
    lemma_next_claim_of_pass(state, first);
    lemma_next_claim_of_pass(state, second);
    lemma_tickets_hit_distinct_rows(
        state.size.h as int,
        claims_in(first) as int,
        claims_in(second) as int,
    );
}

/// Every row is claimed in one pass, where the number of rows is not a
/// multiple of the stride: each row is the row of a ticket below the number
/// of rows, and the claim that draws that ticket names it.
pub proof fn lemma_every_row_is_claimed(state: RasterState, row: int)
    requires
        state.size.h % ROW_STRIDE != 0,
        0 <= row < state.size.h,
    ensures
        row_is_covered(row, state.size.h as int),
{
    lemma_every_row_has_a_ticket(state.size.h as int, row);
}

} // verus!
