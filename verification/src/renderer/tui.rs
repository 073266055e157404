//! The horizontal bar chart of the interactive screen.
//!
//! This family sums merged buckets, so the threshold is rescaled by the
//! same factor (saturating at `u32::MAX`), and the scale maximum is
//! extended to cover the threshold, so the marker line always falls on
//! the grid.

use vstd::prelude::*;

verus! {

use crate::bars::{hbar_runs, hrows_build};
use crate::downscale::{
    downscale,
    ds_factor,
    ds_ignored,
    ds_len,
    ds_values,
    lemma_bucket_lo_in_range,
    lemma_seq_max_ge,
    seq_max,
    spec_downscaled,
    Aggregation,
    Downscaled,
};
use crate::geometry::{cells, scaled_cells, Rounding};
use crate::labels::decorated_row;
use crate::paint::{runs_render, RunV};
use crate::style::{standard_theme, Theme};
use crate::textfmt::{dec_str, repeat_seq};
use crate::tui_renderer::templates::{blank_rows, value_field};

/// The threshold after downscaling: one bucket stands for `f` original
/// entries, so their shared budget is `f` thresholds, saturated at
/// `u32::MAX` like the bucket sums.
pub open spec fn scaled_cutout(c: int, f: int) -> int {
    if c * f > u32::MAX {
        u32::MAX as int
    } else {
        c * f
    }
}

/// The scale maximum of this chart: the largest value or the threshold,
/// whichever is greater, and at least 1.
pub open spec fn tui_scale(values: Seq<u32>, c: int) -> int {
    let mv = if seq_max(values) >= 1 {
        seq_max(values)
    } else {
        1
    };
    if c >= mv {
        c
    } else {
        mv
    }
}

/// The marker cell: the threshold's cell on the scale, pulled back inside
/// the width when the threshold is itself the scale maximum (its cell
/// would otherwise be just past the last column).
pub open spec fn tui_cutout_cell(c: int, w: int, m: int) -> int {
    let raw = cells(c, w, m, Rounding::Down);
    if raw >= w {
        w - 1
    } else {
        raw
    }
}

/// Every row of this chart, as runs.
pub open spec fn tui_hchart_rows(
    values: Seq<u32>,
    ignored: Seq<u32>,
    w: int,
    h: int,
    c: int,
    th: Theme,
) -> Seq<Seq<RunV>> {
    if values.len() == 0 || w <= 0 || h <= 0 {
        blank_rows(" "@, w, h)
    } else {
        let d = spec_downscaled(values, ignored, h, Aggregation::Sum);
        let vs = d.0;
        let ig = d.1;
        let c2 = scaled_cutout(c, d.2);
        let m = tui_scale(vs, c2);
        let cl = tui_cutout_cell(c2, w, m);
        let len = vs.len() as int;
        let factor = h / len;
        Seq::new(
            (factor * len) as nat,
            |r: int|
                hbar_runs(
                    vs[r / factor] as int,
                    ig.contains((r / factor) as u32),
                    w,
                    m,
                    cl,
                    c2,
                    th,
                ),
        )
    }
}

/// A blank rectangle of `height` rows, each `width` copies of `elem`.
pub fn simple_rectangle(elem: &str, width: u32, height: u32) -> (r: Vec<String>)
    ensures
        r@.len() == height as int,
        forall|i: int| 0 <= i < height as int ==> r@[i]@ == repeat_seq(elem@, width as int),
{
    let area = crate::tui_renderer::templates::simple_rectangle(elem, width, height);
    area.area
}

/// One downscaling pass, summing buckets, as this chart applies it.
pub fn downscale_to_biggest_factor(values: &Vec<u32>, ignored: &Vec<u32>, max_length: u32) -> (r: (
    Vec<u32>,
    Vec<u32>,
    u32,
))
    requires
        1 <= max_length,
        values@.len() <= u32::MAX,
    ensures
        r.2 as int == ds_factor(values@.len() as int, max_length as int),
        r.0@ == ds_values(
            values@,
            ignored@,
            r.2 as int,
            ds_len(values@.len() as int, r.2 as int),
            Aggregation::Sum,
        ),
        r.1@ == ds_ignored(
            values@,
            ignored@,
            r.2 as int,
            ds_len(values@.len() as int, r.2 as int),
        ),
        r.0@.len() <= max_length,
{
    let d = downscale(values, ignored, max_length, Aggregation::Sum);
    (d.values, d.ignored, d.factor)
}

pub(crate) proof fn lemma_prepared(values: Seq<u32>, h: int, dsf: int, n: int)
    requires
        1 <= values.len() <= u32::MAX,
        1 <= h,
        if values.len() <= h {
            dsf == 1 && n == values.len()
        } else {
            dsf == ds_factor(values.len() as int, h) && n == ds_len(values.len() as int, dsf)
        },
    ensures
        1 <= n <= h,
        1 <= dsf,
        (n - 1) * dsf < values.len(),
{
    if values.len() <= h {
        assert((n - 1) * 1 == n - 1) by (nonlinear_arith);
    } else {
        crate::downscale::lemma_ds_len_le_max(values.len() as int, h);
        crate::downscale::lemma_factor_bounds(values.len() as int, h);
        lemma_bucket_lo_in_range(values.len() as int, dsf, n - 1);
    }
}

/// The scale maximum and clipped marker cell of this chart at width `w`.
pub(crate) fn scale_and_cutcell(vs: &Vec<u32>, c2: u32, w: u32) -> (r: (u32, u32))
    requires
        1 <= w,
    ensures
        r.0 as int == tui_scale(vs@, c2 as int),
        r.1 as int == tui_cutout_cell(c2 as int, w as int, r.0 as int),
        c2 <= r.0,
        1 <= r.0,
        r.1 < w,
        forall|k: int| 0 <= k < vs@.len() ==> vs@[k] <= r.0,
{
    let mx = crate::downscale::series_max(vs);
    let mv: u32 = if mx >= 1 {
        mx
    } else {
        1
    };
    let m: u32 = if c2 >= mv {
        c2
    } else {
        mv
    };
    proof {
        assert forall|k: int| 0 <= k < vs@.len() implies vs@[k] <= m by {
            lemma_seq_max_ge(vs@, k);
        }
    }
    let raw = scaled_cells(c2 as u64, w, m as u64, Rounding::Down);
    let cl: u32 = if raw >= w {
        w - 1
    } else {
        raw
    };
    (m, cl)
}

/// Renders the horizontal bar chart as styled rows: one row group per
/// data point, bars growing rightward, the threshold marker overlaid.
pub fn bar_graph_horizontal(
    values: &Vec<u32>,
    max_width: u32,
    max_height: u32,
    cutout: u32,
    ignored: &Vec<u32>,
) -> (r: Vec<String>)
    requires
        values@.len() <= u32::MAX,
    ensures
        ({
            let rows = tui_hchart_rows(
                values@,
                ignored@,
                max_width as int,
                max_height as int,
                cutout as int,
                standard_theme(),
            );
            &&& r@.len() == rows.len()
            &&& forall|i: int| 0 <= i < rows.len() ==> r@[i]@ == runs_render(rows[i])
        }),
{
    let ghost rows = tui_hchart_rows(
        values@,
        ignored@,
        max_width as int,
        max_height as int,
        cutout as int,
        standard_theme(),
    );
    if values.len() == 0 || max_width == 0 || max_height == 0 {
        let rect = crate::tui_renderer::templates::simple_rectangle(" ", max_width, max_height);
        proof {
            assert forall|i: int| 0 <= i < rows.len() implies runs_render(rows[i]) == repeat_seq(
                " "@,
                max_width as int,
            ) by {
                crate::paint::lemma_runs_render1(rows[i]);
            }
        }
        return rect.area;
    }
    let th = Theme::standard();
    let ds: Downscaled;
    let (vs, ig): (&Vec<u32>, &Vec<u32>);
    let c2: u32;
    if values.len() > max_height as usize {
        ds = downscale(values, ignored, max_height, Aggregation::Sum);
        proof {
            vstd::arithmetic::mul::lemma_mul_upper_bound(
                cutout as int,
                u32::MAX as int,
                ds.factor as int,
                u32::MAX as int,
            );
        }
        let c64 = (cutout as u64) * (ds.factor as u64);
        c2 = if c64 > u32::MAX as u64 {
            u32::MAX
        } else {
            c64 as u32
        };
        vs = &ds.values;
        ig = &ds.ignored;
        proof {
            lemma_prepared(
                values@,
                max_height as int,
                ds.factor as int,
                vs@.len() as int,
            );
        }
    } else {
        vs = values;
        ig = ignored;
        c2 = cutout;
        proof {
            lemma_prepared(values@, max_height as int, 1, vs@.len() as int);
            vstd::arithmetic::mul::lemma_mul_basics(cutout as int);
            assert(scaled_cutout(cutout as int, 1) == cutout as int);
        }
    }
    let (m, cl) = scale_and_cutcell(vs, c2, max_width);
    let lines = hrows_build(vs, ig, max_width, max_height, m, cl, c2, &th);
    proof {
        let len = vs@.len() as int;
        let factor = max_height as int / len;
        assert(rows.len() == factor * len);
        assert forall|i: int| 0 <= i < rows.len() implies lines@[i]@ == runs_render(rows[i]) by {
            assert(rows[i] == hbar_runs(
                vs@[i / factor] as int,
                ig@.contains((i / factor) as u32),
                max_width as int,
                m as int,
                cl as int,
                c2 as int,
                standard_theme(),
            ));
        }
    }
    lines
}

/// Every row of the labeled chart, as runs.  Shown indices are 1-based
/// original-series positions: buckets step by the downscale factor.
pub open spec fn tui_hlabel_rows(
    values: Seq<u32>,
    ignored: Seq<u32>,
    w: int,
    h: int,
    c: int,
    th: Theme,
) -> Seq<Seq<RunV>> {
    if values.len() == 0 || w <= 0 || h <= 0 {
        blank_rows(" "@, w, h)
    } else {
        let d = spec_downscaled(values, ignored, h, Aggregation::Sum);
        let vs = d.0;
        let ig = d.1;
        let dsf = d.2;
        let c2 = scaled_cutout(c, dsf);
        let len = vs.len() as int;
        let mil = dec_str((len - 1) * dsf + 1).len() as int;
        let lv = value_field(seq_max(vs));
        if w < mil + lv + 8 {
            tui_hchart_rows(values, ignored, w, h, c, th)
        } else {
            let factor = h / len;
            let iw = w - (mil + lv + 5);
            let m = tui_scale(vs, c2);
            let cl = tui_cutout_cell(c2, iw, m);
            Seq::new(
                (factor * len) as nat,
                |r: int|
                    decorated_row(
                        hbar_runs(
                            vs[r / factor] as int,
                            ig.contains((r / factor) as u32),
                            iw,
                            m,
                            cl,
                            c2,
                            th,
                        ),
                        (r / factor) * dsf + 1,
                        vs[r / factor] as int,
                        c2,
                        ig.contains((r / factor) as u32),
                        r % factor == 0,
                        mil,
                        lv,
                        th,
                    ),
            )
        }
    }
}

/// Renders the labeled horizontal bar chart: each bar's first row carries
/// the 1-based original-series index of its bucket on the left and its
/// value, formatted as money, on the right; when the fields do not fit,
/// the plain chart is drawn at full width instead.
pub fn bar_graph_horizontal_label(
    values: &Vec<u32>,
    max_width: u32,
    max_height: u32,
    cutout: u32,
    ignored: &Vec<u32>,
) -> (r: Vec<String>)
    requires
        values@.len() <= u32::MAX,
    ensures
        ({
            let rows = tui_hlabel_rows(
                values@,
                ignored@,
                max_width as int,
                max_height as int,
                cutout as int,
                standard_theme(),
            );
            &&& r@.len() == rows.len()
            &&& forall|i: int| 0 <= i < rows.len() ==> r@[i]@ == runs_render(rows[i])
        }),
{
    let ghost rows = tui_hlabel_rows(
        values@,
        ignored@,
        max_width as int,
        max_height as int,
        cutout as int,
        standard_theme(),
    );
    if values.len() == 0 || max_width == 0 || max_height == 0 {
        let rect = crate::tui_renderer::templates::simple_rectangle(" ", max_width, max_height);
        proof {
            assert forall|i: int| 0 <= i < rows.len() implies runs_render(rows[i]) == repeat_seq(
                " "@,
                max_width as int,
            ) by {
                crate::paint::lemma_runs_render1(rows[i]);
            }
        }
        return rect.area;
    }
    let th = Theme::standard();
    let ds: Downscaled;
    let (vs, ig): (&Vec<u32>, &Vec<u32>);
    let c2: u32;
    let dsf: u32;
    if values.len() > max_height as usize {
        ds = downscale(values, ignored, max_height, Aggregation::Sum);
        proof {
            vstd::arithmetic::mul::lemma_mul_upper_bound(
                cutout as int,
                u32::MAX as int,
                ds.factor as int,
                u32::MAX as int,
            );
        }
        let c64 = (cutout as u64) * (ds.factor as u64);
        c2 = if c64 > u32::MAX as u64 {
            u32::MAX
        } else {
            c64 as u32
        };
        dsf = ds.factor;
        vs = &ds.values;
        ig = &ds.ignored;
        proof {
            lemma_prepared(values@, max_height as int, dsf as int, vs@.len() as int);
        }
    } else {
        vs = values;
        ig = ignored;
        c2 = cutout;
        dsf = 1;
        proof {
            lemma_prepared(values@, max_height as int, 1, vs@.len() as int);
            vstd::arithmetic::mul::lemma_mul_basics(cutout as int);
            assert(scaled_cutout(cutout as int, 1) == cutout as int);
        }
    }
    let idx_max: u32 = (((vs.len() as u64) - 1) * (dsf as u64) + 1) as u32;
    let mil = crate::textfmt::char_len(&crate::textfmt::u32_dec(idx_max));
    let mx = crate::downscale::series_max(vs);
    let dw = crate::textfmt::char_len(&crate::textfmt::u32_dec(mx));
    proof {
        crate::textfmt::lemma_dec_str_len_u32(idx_max as int);
        crate::textfmt::lemma_dec_str_len_u32(mx as int);
    }
    let lv: usize = if dw >= 3 {
        dw + 1
    } else {
        4
    };
    if (max_width as usize) < mil + lv + 8 {
        return bar_graph_horizontal(values, max_width, max_height, cutout, ignored);
    }
    let iw: u32 = max_width - (mil + lv + 5) as u32;
    let (m, cl) = scale_and_cutcell(vs, c2, iw);
    let lines = crate::labels::hlabel_build(
        vs,
        ig,
        max_width,
        max_height,
        m,
        cl,
        c2,
        dsf,
        mil,
        lv,
        &th,
    );
    proof {
        let len = vs@.len() as int;
        let factor = max_height as int / len;
        assert(rows.len() == factor * len);
        assert forall|i: int| 0 <= i < rows.len() implies lines@[i]@ == runs_render(rows[i]) by {
            assert(rows[i] == decorated_row(
                hbar_runs(
                    vs@[i / factor] as int,
                    ig@.contains((i / factor) as u32),
                    iw as int,
                    m as int,
                    cl as int,
                    c2 as int,
                    standard_theme(),
                ),
                (i / factor) * dsf as int + 1,
                vs@[i / factor] as int,
                c2 as int,
                ig@.contains((i / factor) as u32),
                i % factor == 0,
                mil as int,
                lv as int,
                standard_theme(),
            ));
        }
    }
    lines
}

} // verus!
