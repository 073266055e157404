//! Shared geometry of the bar charts: how a magnitude on a scale with a
//! given maximum is turned into a whole number of cells of a span.

use vstd::prelude::*;

verus! {

use vstd::arithmetic::div_mod::{
    lemma_div_is_ordered,
    lemma_div_multiples_vanish,
    lemma_div_pos_is_pos,
    lemma_multiply_divide_lt,
};
use vstd::arithmetic::mul::{
    lemma_mul_inequality,
    lemma_mul_is_distributive_add,
    lemma_mul_nonnegative,
    lemma_mul_upper_bound,
};

/// How a real-valued cell count is rounded to a whole number of cells.
///
/// Horizontal bars truncate; vertical bars round to the nearest cell, with
/// an exact half rounding down.
#[derive(Clone, Copy, PartialEq, Eq, Structural, Debug)]
pub enum Rounding {
    Down,
    Nearest,
}

/// The number of cells, out of `span`, that a value `v` covers on a scale
/// whose maximum is `m`: the whole part of `v * span / m` under the chosen
/// rounding rule.
pub open spec fn cells(v: int, span: int, m: int, r: Rounding) -> int {
    match r {
        Rounding::Down => v * span / m,
        Rounding::Nearest => (2 * v * span + m - 1) / (2 * m),
    }
}

/// A value within the scale never covers more than the whole span.
pub proof fn lemma_cells_le_span(v: int, span: int, m: int, r: Rounding)
    requires
        0 <= v <= m,
        1 <= m,
        0 <= span,
    ensures
        0 <= cells(v, span, m, r) <= span,
{
    match r {
        Rounding::Down => {
            lemma_mul_nonnegative(v, span);
            lemma_mul_inequality(v, m, span);
            lemma_div_is_ordered(v * span, m * span, m);
            lemma_div_multiples_vanish(span, m);
            lemma_div_pos_is_pos(v * span, m);
        },
        Rounding::Nearest => {
            let p = 2 * v * span;
            assert(p == (2 * v) * span);
            assert(p >= 0) by {
                lemma_mul_nonnegative(2 * v, span);
            }
            assert(p <= (2 * m) * span) by {
                lemma_mul_inequality(2 * v, 2 * m, span);
            }
            assert((2 * m) * (span + 1) == (2 * m) * span + (2 * m) * 1) by {
                lemma_mul_is_distributive_add(2 * m, span, 1);
            }
            lemma_multiply_divide_lt(p + m - 1, 2 * m, span + 1);
            lemma_div_pos_is_pos(p + m - 1, 2 * m);
        },
    }
}

/// The product of a `u64` and a `u32` fits a `u128`.
proof fn lemma_u64_u32_product_fits(a: int, b: int)
    requires
        0 <= a <= u64::MAX,
        0 <= b <= u32::MAX,
    ensures
        0 <= a * b <= (u64::MAX as int) * (u32::MAX as int),
{
    lemma_mul_nonnegative(a, b);
    lemma_mul_upper_bound(a, u64::MAX as int, b, u32::MAX as int);
}

/// Computes `cells(v, span, m, r)` exactly, in integer arithmetic.
pub fn scaled_cells(v: u64, span: u32, m: u64, r: Rounding) -> (c: u32)
    requires
        1 <= m,
        v <= m,
    ensures
        c == cells(v as int, span as int, m as int, r),
{
    proof {
        lemma_cells_le_span(v as int, span as int, m as int, r);
        lemma_u64_u32_product_fits(v as int, span as int);
        lemma_mul_upper_bound(2 * (v as int), 2 * (u64::MAX as int), span as int, u32::MAX as int);
    }
    match r {
        Rounding::Down => (((v as u128) * (span as u128)) / (m as u128)) as u32,
        Rounding::Nearest => {
            ((2 * (v as u128) * (span as u128) + (m as u128) - 1) / (2 * (m as u128))) as u32
        },
    }
}

/// The cell where the threshold marker falls on a horizontal bar, clipped
/// to `span`: a marker at cell `span` or beyond is simply not drawn, so
/// the clipped value loses nothing.  Unlike [`scaled_cells`] this allows a
/// threshold above the scale's maximum.
pub fn cutout_cell_clipped(c: u64, span: u32, m: u64) -> (r: u32)
    requires
        1 <= m,
    ensures
        r == if cells(c as int, span as int, m as int, Rounding::Down) <= span as int {
            cells(c as int, span as int, m as int, Rounding::Down)
        } else {
            span as int
        },
{
    proof {
        lemma_u64_u32_product_fits(c as int, span as int);
        lemma_div_pos_is_pos((c as int) * (span as int), m as int);
    }
    let raw: u128 = ((c as u128) * (span as u128)) / (m as u128);
    if raw <= span as u128 {
        raw as u32
    } else {
        span
    }
}

/// The row, counted from the chart's bottom edge, on which the threshold
/// line falls: the least row at or above the real-valued boundary
/// `c * span / m`.
pub open spec fn threshold_row(c: int, span: int, m: int) -> int {
    (c * span + m - 1) / m
}

/// Computes `threshold_row` exactly, clipped to `span`.  Rows are numbered
/// `0 .. span - 1`, so a result of `span` already means the line falls
/// above every visible row; clipping there loses nothing.
pub fn threshold_row_clipped(c: u64, span: u32, m: u64) -> (r: u32)
    requires
        1 <= m,
    ensures
        r == if threshold_row(c as int, span as int, m as int) <= span as int {
            threshold_row(c as int, span as int, m as int)
        } else {
            span as int
        },
{
    proof {
        lemma_u64_u32_product_fits(c as int, span as int);
        lemma_div_pos_is_pos((c as int) * (span as int) + (m as int) - 1, m as int);
    }
    let raw: u128 = ((c as u128) * (span as u128) + (m as u128) - 1) / (m as u128);
    if raw <= span as u128 {
        raw as u32
    } else {
        span
    }
}

} // verus!
