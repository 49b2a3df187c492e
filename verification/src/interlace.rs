//! The order in which rows are handed out for computation.
//!
//! Tickets are drawn from a counter and row `(ticket * 31) mod rows` is
//! computed for each, so that coarse structure shows across the whole frame
//! early instead of the frame filling from top to bottom.
//!
//! One pass of tickets `0 .. rows` reaches every row exactly once when the
//! number of rows is not a multiple of 31. When it is, one pass reaches
//! only every 31st row, each of them 31 times.

use vstd::arithmetic::div_mod::lemma_fundamental_div_mod;
use vstd::arithmetic::div_mod::lemma_mod_bound;
use vstd::arithmetic::div_mod::lemma_mod_equivalence;
use vstd::arithmetic::div_mod::lemma_mod_multiples_basic;
use vstd::arithmetic::div_mod::lemma_mul_mod_noop_left;
use vstd::prelude::*;
use vstd::relations::injective_on;
use vstd::set_lib::lemma_int_range;
use vstd::set_lib::lemma_map_size;
use vstd::set_lib::lemma_subset_equality;
use vstd::set_lib::set_int_range;

verus! {

/// Distance, in rows, between the rows of two successive tickets.
pub const ROW_STRIDE: u32 = 31;

/// The row that `ticket` stands for in a raster of `rows` rows.
pub open spec fn row_of_ticket(ticket: int, rows: int) -> int {
    (ticket * ROW_STRIDE as int) % rows
}

/// The row that `ticket` stands for in a raster of `rows` rows.
pub fn ticket_row(ticket: u32, rows: u32) -> (row: u32)
    requires
        rows > 0,
    ensures
        row == row_of_ticket(ticket as int, rows as int),
        row < rows,
{
    let wide: u64 = ticket as u64 * ROW_STRIDE as u64;
    let row: u64 = wide % rows as u64;
    row as u32
}

/// Some ticket of one pass stands for `row`.
pub open spec fn row_is_covered(row: int, rows: int) -> bool {
    exists|ticket: int| 0 <= ticket < rows && row_of_ticket(ticket, rows) == row
}

/// No multiple of 31 hides in a product of two numbers between 1 and 30.
proof fn lemma_stride_is_prime(r: u32, q: u32)
    requires
        1 <= r <= 30,
        1 <= q <= 30,
    ensures
        (r * q) % 31 != 0,
{
    assert((r * q) % 31 != 0) by (bit_vector)
        requires
            1 <= r <= 30,
            1 <= q <= 30,
    ;
}

/// Two tickets of one pass never stand for the same row, where the number of
/// rows is not a multiple of the stride.
pub proof fn lemma_tickets_hit_distinct_rows(rows: int, first: int, second: int)
    requires
        0 < rows,
        rows % (ROW_STRIDE as int) != 0,
        0 <= first < rows,
        0 <= second < rows,
        row_of_ticket(first, rows) == row_of_ticket(second, rows),
    ensures
        first == second,
{
    if first != second {
        let hi = if first > second { first } else { second };
        let lo = if first > second { second } else { first };
        let d = hi - lo;
        lemma_mod_equivalence(hi * 31, lo * 31, rows);
        assert((hi * 31 - lo * 31) % rows == 0);
        assert(hi * 31 - lo * 31 == 31 * d);
        let q = (31 * d) / rows;
        lemma_fundamental_div_mod(31 * d, rows);
        assert(31 * d == rows * q);
        assert(0 < q < 31) by (nonlinear_arith)
            requires
                31 * d == rows * q,
                0 < d < rows,
        ;
        lemma_mod_multiples_basic(d, 31);
        assert((rows * q) % 31 == 0) by {
            assert(d * 31 == rows * q);
        }
        lemma_mul_mod_noop_left(rows, q, 31);
        let r = rows % 31;
        lemma_mod_bound(rows, 31);
        assert((r * q) % 31 == 0);
        lemma_stride_is_prime(r as u32, q as u32);
    }
}

/// Every row is the row of some ticket of one pass, where the number of rows
/// is not a multiple of the stride.
pub proof fn lemma_every_row_has_a_ticket(rows: int, row: int)
    requires
        0 < rows,
        rows % (ROW_STRIDE as int) != 0,
        0 <= row < rows,
    ensures
        row_is_covered(row, rows),
{
    let all = set_int_range(0, rows);
    let f = |ticket: int| row_of_ticket(ticket, rows);
    let hit = all.map(f);
    lemma_int_range(0, rows);
    assert forall|t1: int, t2: int|
        all.contains(t1) && all.contains(t2) && #[trigger] f(t1) == #[trigger] f(t2) implies t1
        == t2 by {
        lemma_tickets_hit_distinct_rows(rows, t1, t2);
    }
    assert(injective_on(f, all));
    lemma_map_size(all, hit, f);
    assert forall|r: int| hit.contains(r) implies all.contains(r) by {
        let t = choose|t: int| all.contains(t) && r == f(t);
        lemma_mod_bound(t * 31, rows);
    }
    assert(hit.subset_of(all));
    lemma_subset_equality(hit, all);
    assert(hit.contains(row));
    let ticket = choose|t: int| all.contains(t) && row == f(t);
    assert(0 <= ticket < rows && row_of_ticket(ticket, rows) == row);
}

/// One pass of tickets `0 .. rows` covers every row, and each row once: the
/// rows of the tickets are a rearrangement of the rows of the raster. This
/// holds where the number of rows is not a multiple of the stride.
pub proof fn lemma_one_pass_covers_each_row_once(rows: int)
    requires
        0 < rows,
        rows % (ROW_STRIDE as int) != 0,
    ensures
        forall|ticket: int|
            0 <= ticket < rows ==> 0 <= #[trigger] row_of_ticket(ticket, rows) < rows,
        forall|row: int| 0 <= row < rows ==> #[trigger] row_is_covered(row, rows),
        forall|first: int, second: int|
            0 <= first < rows && 0 <= second < rows && #[trigger] row_of_ticket(first, rows)
                == #[trigger] row_of_ticket(second, rows) ==> first == second,
{
    assert forall|ticket: int| 0 <= ticket < rows implies 0 <= #[trigger] row_of_ticket(
        ticket,
        rows,
    ) < rows by {
        lemma_mod_bound(ticket * 31, rows);
    }
    assert forall|row: int| 0 <= row < rows implies #[trigger] row_is_covered(row, rows) by {
        lemma_every_row_has_a_ticket(rows, row);
    }
    assert forall|first: int, second: int|
        0 <= first < rows && 0 <= second < rows && #[trigger] row_of_ticket(first, rows)
            == #[trigger] row_of_ticket(second, rows) implies first == second by {
        lemma_tickets_hit_distinct_rows(rows, first, second);
    }
}

} // verus!
