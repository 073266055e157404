//! The properties the charts are held to, stated and proved over the
//! specification model that the chart functions' contracts use: every row
//! shows exactly the stated number of cells, downscaling never overshoots
//! its bound and is idempotent, an all-ignored bucket reports no data,
//! coloring follows the threshold, and dropping labels falls back to the
//! bare chart.

use vstd::prelude::*;

verus! {

use crate::bars::{
    bar_tint,
    hbar_runs,
    lemma_hbar_cells,
    lemma_runs_cells1,
    lemma_runs_cells2,
    lemma_vbar_row_cells,
};
use crate::downscale::{
    bucket_hi,
    bucket_ignored,
    bucket_value,
    ds_factor,
    ds_ignored,
    ds_len,
    ds_values,
    kept,
    lemma_ds_ignored_contains,
    lemma_ds_len_le_max,
    lemma_ds_values_index,
    lemma_ds_values_len,
    lemma_seq_max_ge,
    range_count,
    range_sum,
    seq_max,
    spec_downscaled,
    Aggregation,
};
use crate::geometry::{cells, lemma_cells_le_span, Rounding};
use crate::labels::{decorated_row, index_label, label_prefix, label_suffix, value_label};
use crate::paint::{lemma_runs_cells_concat, runs_cells, RunV};
use crate::style::Theme;
use crate::textfmt::{
    dec_str,
    lemma_dec_str_len_le,
    lemma_dec_str_len_pos,
    lemma_repeat_seq_len,
    pad_left,
    repeat_seq,
};
use crate::tui_renderer::templates::{
    blank_row,
    chart_scale,
    hchart_rows,
    hcutout_cell,
    hlabel_chart_rows,
    value_field,
    vchart_rows,
    vcutout_row,
};
use crate::renderer::tui::{
    scaled_cutout,
    tui_cutout_cell,
    tui_hchart_rows,
    tui_hlabel_rows,
    tui_scale,
};
use vstd::arithmetic::div_mod::{lemma_div_pos_is_pos, lemma_multiply_divide_lt};

/// A blank row shows exactly `w` cells.
pub proof fn lemma_blank_row_cells(w: int)
    requires
        0 <= w,
    ensures
        runs_cells(blank_row(" "@, w)) == w,
{
    reveal_strlit(" ");
    lemma_repeat_seq_len(" "@, w);
    lemma_runs_cells1(blank_row(" "@, w));
}

/// Padding a string never shortens it, and pads exactly to the width.
pub proof fn lemma_pad_left_len(s: Seq<char>, w: int, c: char)
    ensures
        pad_left(s, w, c).len() == if s.len() >= w {
            s.len() as int
        } else {
            w
        },
{
    if s.len() < w {
        lemma_repeat_seq_len(seq![c], w - s.len());
        assert((w - s.len()) * 1 == w - s.len()) by (nonlinear_arith);
    }
}

/// An index label is exactly its field wide when the index fits the
/// field.
pub proof fn lemma_index_label_len(idx1: int, mil: int)
    requires
        dec_str(idx1).len() <= mil,
    ensures
        index_label(idx1, mil).len() == mil + 2,
{
    reveal_strlit(" ");
    lemma_pad_left_len(dec_str(idx1), mil, ' ');
}

/// A value label is exactly its field wide when the value's digits fit.
pub proof fn lemma_value_label_len(v: int, lv: int)
    requires
        3 <= lv - 1,
        dec_str(v).len() <= lv - 1,
    ensures
        value_label(v, lv).len() == lv + 3,
{
    reveal_strlit(".");
    reveal_strlit("\u{20ac} ");
    lemma_dec_str_len_pos(v);
    lemma_pad_left_len(dec_str(v), 3, '0');
    lemma_pad_left_len(pad_left(dec_str(v), 3, '0'), lv, ' ');
}

/// A label prefix spans its field: `mil + 2` cells.
pub proof fn lemma_label_prefix_cells(idx1: int, ign: bool, first: bool, mil: int, th: Theme)
    requires
        0 <= mil,
        dec_str(idx1).len() <= mil,
    ensures
        runs_cells(label_prefix(idx1, ign, first, mil, th)) == mil + 2,
{
    reveal_strlit(" ");
    reveal_strlit("- ");
    let rs = label_prefix(idx1, ign, first, mil, th);
    if !first {
        lemma_repeat_seq_len(" "@, mil + 2);
        lemma_runs_cells1(rs);
    } else if ign {
        lemma_repeat_seq_len(" "@, mil);
        lemma_runs_cells2(rs);
    } else {
        lemma_index_label_len(idx1, mil);
        lemma_runs_cells1(rs);
    }
}

/// A label suffix spans its field: `lv + 3` cells.
pub proof fn lemma_label_suffix_cells(v: int, c: int, ign: bool, first: bool, lv: int, th: Theme)
    requires
        4 <= lv,
        dec_str(v).len() <= lv - 1,
    ensures
        runs_cells(label_suffix(v, c, ign, first, lv, th)) == lv + 3,
{
    reveal_strlit(" ");
    reveal_strlit("----\u{20ac} ");
    let rs = label_suffix(v, c, ign, first, lv, th);
    if !first {
        lemma_repeat_seq_len(" "@, lv + 3);
        lemma_runs_cells1(rs);
    } else if ign {
        lemma_repeat_seq_len(" "@, lv - 3);
        lemma_runs_cells2(rs);
    } else {
        lemma_value_label_len(v, lv);
        lemma_runs_cells1(rs);
    }
}

/// A labeled row spans prefix, bar and suffix together.
pub proof fn lemma_decorated_row_cells(
    inner: Seq<RunV>,
    idx1: int,
    v: int,
    c: int,
    ign: bool,
    first: bool,
    mil: int,
    lv: int,
    th: Theme,
)
    requires
        0 <= mil,
        4 <= lv,
        dec_str(idx1).len() <= mil,
        dec_str(v).len() <= lv - 1,
    ensures
        runs_cells(decorated_row(inner, idx1, v, c, ign, first, mil, lv, th)) == (mil + 2)
            + runs_cells(inner) + (lv + 3),
{
    let pre = label_prefix(idx1, ign, first, mil, th);
    let suf = label_suffix(v, c, ign, first, lv, th);
    lemma_label_prefix_cells(idx1, ign, first, mil, th);
    lemma_label_suffix_cells(v, c, ign, first, lv, th);
    lemma_runs_cells_concat(pre, inner);
    lemma_runs_cells_concat(pre + inner, suf);
    assert(decorated_row(inner, idx1, v, c, ign, first, mil, lv, th) =~= (pre + inner) + suf);
}

/// Size invariant of the horizontal chart that averages buckets: every
/// row shows exactly the requested width.
pub proof fn lemma_hchart_row_width(
    values: Seq<u32>,
    ignored: Seq<u32>,
    w: int,
    h: int,
    c: int,
    th: Theme,
    i: int,
)
    requires
        0 <= w,
        0 <= c,
        values.len() <= u32::MAX,
        0 <= i < hchart_rows(values, ignored, w, h, c, th).len(),
    ensures
        runs_cells(hchart_rows(values, ignored, w, h, c, th)[i]) == w,
{
    if values.len() == 0 || w <= 0 || h <= 0 {
        lemma_blank_row_cells(w);
    } else {
        let d = spec_downscaled(values, ignored, h, Aggregation::Mean);
        let vs = d.0;
        let ig = d.1;
        let m = chart_scale(vs);
        let cl = hcutout_cell(c, w, m);
        let len = vs.len() as int;
        let factor = h / len;
        lemma_chart_index(values, ignored, h, Aggregation::Mean, i, factor);
        let k = i / factor;
        lemma_seq_max_ge(vs, k);
        lemma_cells_le_span_for_cutout(c, w, m);
        lemma_hbar_cells(vs[k] as int, ig.contains(k as u32), w, m, cl, c, th);
    }
}

/// Size invariant of the labeled horizontal chart: every row shows
/// exactly the requested width.
pub proof fn lemma_hlabel_chart_row_width(
    values: Seq<u32>,
    ignored: Seq<u32>,
    w: int,
    h: int,
    c: int,
    shrink: bool,
    th: Theme,
    i: int,
)
    requires
        0 <= w,
        0 <= c,
        values.len() <= u32::MAX,
        0 <= i < hlabel_chart_rows(values, ignored, w, h, c, shrink, th).len(),
    ensures
        runs_cells(hlabel_chart_rows(values, ignored, w, h, c, shrink, th)[i]) == w,
{
    if values.len() == 0 || w <= 0 || h <= 0 {
        lemma_blank_row_cells(w);
    } else if values.len() > h && !shrink {
        lemma_hchart_row_width(values, ignored, w, h, c, th, i);
    } else {
        let d = spec_downscaled(values, ignored, h, Aggregation::Mean);
        let vs = d.0;
        let ig = d.1;
        let len = vs.len() as int;
        let mil = dec_str(len).len() as int;
        let lv = value_field(seq_max(vs));
        if w < mil + lv + 8 {
            lemma_hchart_row_width(values, ignored, w, h, c, th, i);
        } else {
            let factor = h / len;
            let iw = w - (mil + lv + 5);
            let m = chart_scale(vs);
            let cl = hcutout_cell(c, iw, m);
            lemma_chart_index(values, ignored, h, Aggregation::Mean, i, factor);
            let k = i / factor;
            lemma_seq_max_ge(vs, k);
            lemma_cells_le_span_for_cutout(c, iw, m);
            lemma_hbar_cells(vs[k] as int, ig.contains(k as u32), iw, m, cl, c, th);
            lemma_dec_str_len_le(k + 1, len);
            lemma_dec_str_len_le(vs[k] as int, seq_max(vs));
            lemma_decorated_row_cells(
                hbar_runs(vs[k] as int, ig.contains(k as u32), iw, m, cl, c, th),
                k + 1,
                vs[k] as int,
                c,
                ig.contains(k as u32),
                i % factor == 0,
                mil,
                lv,
                th,
            );
        }
    }
}

/// Size invariant of the labeled summing chart: every row shows exactly
/// the requested width.
pub proof fn lemma_tui_hlabel_chart_row_width(
    values: Seq<u32>,
    ignored: Seq<u32>,
    w: int,
    h: int,
    c: int,
    th: Theme,
    i: int,
)
    requires
        0 <= w,
        0 <= c,
        values.len() <= u32::MAX,
        0 <= i < tui_hlabel_rows(values, ignored, w, h, c, th).len(),
    ensures
        runs_cells(tui_hlabel_rows(values, ignored, w, h, c, th)[i]) == w,
{
    if values.len() == 0 || w <= 0 || h <= 0 {
        lemma_blank_row_cells(w);
    } else {
        let d = spec_downscaled(values, ignored, h, Aggregation::Sum);
        let vs = d.0;
        let ig = d.1;
        let dsf = d.2;
        let c2 = scaled_cutout(c, dsf);
        let len = vs.len() as int;
        let mil = dec_str((len - 1) * dsf + 1).len() as int;
        let lv = value_field(seq_max(vs));
        if w < mil + lv + 8 {
            lemma_tui_hchart_row_width(values, ignored, w, h, c, th, i);
        } else {
            let factor = h / len;
            let iw = w - (mil + lv + 5);
            let m = tui_scale(vs, c2);
            let cl = tui_cutout_cell(c2, iw, m);
            lemma_chart_index(values, ignored, h, Aggregation::Sum, i, factor);
            let k = i / factor;
            lemma_seq_max_ge(vs, k);
            lemma_scaled_cutout_bounds(c, dsf);
            lemma_cells_le_span(c2, iw, m, Rounding::Down);
            lemma_hbar_cells(vs[k] as int, ig.contains(k as u32), iw, m, cl, c2, th);
            assert(dsf >= 1) by {
                if values.len() > h {
                    crate::downscale::lemma_factor_bounds(values.len() as int, h);
                }
            }
            assert(k * dsf <= (len - 1) * dsf) by {
                vstd::arithmetic::mul::lemma_mul_inequality(k, len - 1, dsf);
            }
            assert(0 <= k * dsf) by {
                vstd::arithmetic::mul::lemma_mul_nonnegative(k, dsf);
            }
            lemma_dec_str_len_le(k * dsf + 1, (len - 1) * dsf + 1);
            lemma_dec_str_len_le(vs[k] as int, seq_max(vs));
            lemma_decorated_row_cells(
                hbar_runs(vs[k] as int, ig.contains(k as u32), iw, m, cl, c2, th),
                k * dsf + 1,
                vs[k] as int,
                c2,
                ig.contains(k as u32),
                i % factor == 0,
                mil,
                lv,
                th,
            );
        }
    }
}

/// Size invariant of the vertical chart: every row shows exactly the
/// drawn width, the column-group width times the bucket count.
pub proof fn lemma_vchart_row_width(
    values: Seq<u32>,
    ignored: Seq<u32>,
    w: int,
    h: int,
    c: int,
    th: Theme,
    i: int,
)
    requires
        0 <= w,
        values.len() <= u32::MAX,
        0 <= i < vchart_rows(values, ignored, w, h, c, th).len(),
    ensures
        values.len() == 0 || w <= 0 || h <= 0 ==> runs_cells(
            vchart_rows(values, ignored, w, h, c, th)[i],
        ) == w,
        values.len() > 0 && w > 0 && h > 0 ==> ({
            let d = spec_downscaled(values, ignored, w, Aggregation::Mean);
            runs_cells(vchart_rows(values, ignored, w, h, c, th)[i]) == d.0.len() * (w
                / d.0.len() as int)
        }),
{
    if values.len() == 0 || w <= 0 || h <= 0 {
        lemma_blank_row_cells(w);
    } else {
        let d = spec_downscaled(values, ignored, w, Aggregation::Mean);
        let vs = d.0;
        let ig = d.1;
        let m = chart_scale(vs);
        let cut_rb = vcutout_row(c, h, m);
        let len = vs.len() as int;
        let factor = w / len;
        lemma_vbar_row_cells(vs, ig, h - 1 - i, h, m, cut_rb, factor, c, th);
        assert(len >= 1) by {
            if values.len() > w {
                lemma_ds_len_le_max(values.len() as int, w);
            }
        }
        lemma_div_pos_is_pos(w, len);
    }
}

/// Size invariant of the summing horizontal chart: every row shows
/// exactly the requested width.
pub proof fn lemma_tui_hchart_row_width(
    values: Seq<u32>,
    ignored: Seq<u32>,
    w: int,
    h: int,
    c: int,
    th: Theme,
    i: int,
)
    requires
        0 <= w,
        0 <= c,
        values.len() <= u32::MAX,
        0 <= i < tui_hchart_rows(values, ignored, w, h, c, th).len(),
    ensures
        runs_cells(tui_hchart_rows(values, ignored, w, h, c, th)[i]) == w,
{
    if values.len() == 0 || w <= 0 || h <= 0 {
        lemma_blank_row_cells(w);
    } else {
        let d = spec_downscaled(values, ignored, h, Aggregation::Sum);
        let vs = d.0;
        let ig = d.1;
        let c2 = scaled_cutout(c, d.2);
        let m = tui_scale(vs, c2);
        let cl = tui_cutout_cell(c2, w, m);
        let len = vs.len() as int;
        let factor = h / len;
        lemma_chart_index(values, ignored, h, Aggregation::Sum, i, factor);
        let k = i / factor;
        lemma_seq_max_ge(vs, k);
        lemma_scaled_cutout_bounds(c, d.2);
        lemma_cells_le_span(c2, w, m, Rounding::Down);
        lemma_hbar_cells(vs[k] as int, ig.contains(k as u32), w, m, cl, c2, th);
    }
}

/// A bar's index within a chart's row list is a valid bucket index.
proof fn lemma_chart_index(
    values: Seq<u32>,
    ignored: Seq<u32>,
    h: int,
    agg: Aggregation,
    i: int,
    factor: int,
)
    requires
        values.len() > 0,
        h > 0,
        values.len() <= u32::MAX,
        factor == h / spec_downscaled(values, ignored, h, agg).0.len() as int,
        0 <= i < factor * spec_downscaled(values, ignored, h, agg).0.len(),
    ensures
        1 <= spec_downscaled(values, ignored, h, agg).0.len(),
        1 <= factor,
        0 <= i / factor < spec_downscaled(values, ignored, h, agg).0.len(),
{
    let d = spec_downscaled(values, ignored, h, agg);
    let len = d.0.len() as int;
    assert(1 <= len) by {
        if values.len() > h {
            lemma_ds_len_le_max(values.len() as int, h);
            lemma_ds_values_len(
                values,
                ignored,
                ds_factor(values.len() as int, h),
                ds_len(values.len() as int, ds_factor(values.len() as int, h)),
                agg,
            );
        }
    }
    assert(1 <= factor) by {
        vstd::arithmetic::mul::lemma_mul_nonnegative(factor, len);
        if factor <= 0 {
            assert(factor * len <= 0) by (nonlinear_arith)
                requires
                    factor <= 0,
                    len >= 1,
            ;
        }
    }
    lemma_div_pos_is_pos(i, factor);
    lemma_multiply_divide_lt(i, factor, len);
}

/// The scaled threshold is non-negative.
proof fn lemma_scaled_cutout_bounds(c: int, f: int)
    requires
        0 <= c,
        1 <= f,
    ensures
        0 <= scaled_cutout(c, f) <= u32::MAX,
{
    vstd::arithmetic::mul::lemma_mul_nonnegative(c, f);
}

/// The clipped marker cell of the averaging charts stays inside the
/// width.
proof fn lemma_cells_le_span_for_cutout(c: int, w: int, m: int)
    requires
        0 <= c,
        0 <= w,
        1 <= m,
    ensures
        0 <= hcutout_cell(c, w, m) <= w,
{
    vstd::arithmetic::mul::lemma_mul_nonnegative(c, w);
    lemma_div_pos_is_pos(c * w, m);
}

/// Threshold coloring: in any horizontal bar row of a bar that is not
/// ignored, the bar's fill run carries the bad color exactly when the
/// bar's value reaches the threshold, and the good color otherwise.
pub proof fn lemma_threshold_coloring(v: int, w: int, m: int, cl: int, c: int, th: Theme)
    ensures
        hbar_runs(v, false, w, m, cl, c, th)[0].bg == bar_tint(v, c, th),
        v >= c ==> bar_tint(v, c, th) == th.bad as int,
        v < c ==> bar_tint(v, c, th) == th.good as int,
{
}

/// Threshold coloring over the whole summing chart: row `i` belongs to
/// bucket `i / (h / len)`, and its fill run is bad-colored exactly when
/// that bucket's aggregated value reaches the rescaled threshold.
pub proof fn lemma_tui_chart_coloring(
    values: Seq<u32>,
    ignored: Seq<u32>,
    w: int,
    h: int,
    c: int,
    th: Theme,
    i: int,
)
    requires
        values.len() > 0,
        w > 0,
        h > 0,
        values.len() <= u32::MAX,
        0 <= i < tui_hchart_rows(values, ignored, w, h, c, th).len(),
    ensures
        ({
            let d = spec_downscaled(values, ignored, h, Aggregation::Sum);
            let c2 = scaled_cutout(c, d.2);
            let k = i / (h / d.0.len() as int);
            !d.1.contains(k as u32) ==> tui_hchart_rows(values, ignored, w, h, c, th)[i][0].bg
                == (if d.0[k] as int >= c2 {
                th.bad as int
            } else {
                th.good as int
            })
        }),
{
    let d = spec_downscaled(values, ignored, h, Aggregation::Sum);
    let factor = h / d.0.len() as int;
    lemma_chart_index(values, ignored, h, Aggregation::Sum, i, factor);
}

/// Threshold coloring over the whole averaging chart: row `i` belongs to
/// bucket `i / (h / len)`, and its fill run is bad-colored exactly when
/// that bucket's mean reaches the threshold, which this chart never
/// rescales.
pub proof fn lemma_chart_coloring(
    values: Seq<u32>,
    ignored: Seq<u32>,
    w: int,
    h: int,
    c: int,
    th: Theme,
    i: int,
)
    requires
        values.len() > 0,
        w > 0,
        h > 0,
        values.len() <= u32::MAX,
        0 <= i < hchart_rows(values, ignored, w, h, c, th).len(),
    ensures
        ({
            let d = spec_downscaled(values, ignored, h, Aggregation::Mean);
            let k = i / (h / d.0.len() as int);
            !d.1.contains(k as u32) ==> hchart_rows(values, ignored, w, h, c, th)[i][0].bg == (
            if d.0[k] as int >= c {
                th.bad as int
            } else {
                th.good as int
            })
        }),
{
    let d = spec_downscaled(values, ignored, h, Aggregation::Mean);
    let factor = h / d.0.len() as int;
    lemma_chart_index(values, ignored, h, Aggregation::Mean, i, factor);
}

/// Label fallback: when the two label fields and the smallest drawable
/// bar do not fit the width, the labeled chart is exactly the bare chart
/// at full width.
pub proof fn lemma_label_fallback(
    values: Seq<u32>,
    ignored: Seq<u32>,
    w: int,
    h: int,
    c: int,
    th: Theme,
)
    requires
        values.len() > 0,
        w > 0,
        h > 0,
        ({
            let d = spec_downscaled(values, ignored, h, Aggregation::Sum);
            let mil = dec_str((d.0.len() - 1) * d.2 + 1).len() as int;
            let lv = value_field(seq_max(d.0));
            w < mil + lv + 8
        }),
    ensures
        tui_hlabel_rows(values, ignored, w, h, c, th) == tui_hchart_rows(
            values,
            ignored,
            w,
            h,
            c,
            th,
        ),
{
}

/// All-ignored bucket: when every original index that maps into bucket
/// `i` is ignored, the aggregated value of bucket `i` is zero and `i`
/// joins the aggregated ignored set.
pub proof fn lemma_all_ignored_bucket(
    values: Seq<u32>,
    ignored: Seq<u32>,
    factor: int,
    n: int,
    agg: Aggregation,
    i: int,
)
    requires
        1 <= factor,
        0 <= i < n,
        n <= u32::MAX,
        forall|j: int|
            i * factor <= j < bucket_hi(i * factor, factor, values.len() as int)
                ==> ignored.contains(#[trigger] (j as u32)),
    ensures
        ds_values(values, ignored, factor, n, agg)[i] == 0,
        ds_ignored(values, ignored, factor, n).contains(i as u32),
{
    let lo = i * factor;
    let hi = bucket_hi(lo, factor, values.len() as int);
    lemma_range_count_zero(values, ignored, lo, hi);
    lemma_ds_values_index(values, ignored, factor, n, agg, i);
    lemma_ds_ignored_contains(values, ignored, factor, n);
    assert(bucket_ignored(values, ignored, factor, i));
}

/// A range none of whose indices is kept counts no entries.
proof fn lemma_range_count_zero(values: Seq<u32>, ignored: Seq<u32>, lo: int, hi: int)
    requires
        forall|j: int| lo <= j < hi ==> !kept(values, ignored, j),
    ensures
        range_count(values, ignored, lo, hi) == 0,
    decreases hi - lo,
{
    if lo < hi {
        lemma_range_count_zero(values, ignored, lo, hi - 1);
    }
}

/// Downscale idempotence: running the aggregation pass on its own output,
/// with the same bound, changes nothing: the factor degenerates to 1 and
/// the series and ignored set come back as they are.
pub proof fn lemma_downscale_idempotent(
    values: Seq<u32>,
    ignored: Seq<u32>,
    max_len: int,
    agg: Aggregation,
)
    requires
        1 <= max_len,
        values.len() <= u32::MAX,
    ensures
        ({
            let f1 = ds_factor(values.len() as int, max_len);
            let n1 = ds_len(values.len() as int, f1);
            let v1 = ds_values(values, ignored, f1, n1, agg);
            let i1 = ds_ignored(values, ignored, f1, n1);
            let f2 = ds_factor(v1.len() as int, max_len);
            let n2 = ds_len(v1.len() as int, f2);
            &&& f2 == 1
            &&& ds_values(v1, i1, f2, n2, agg) == v1
            &&& ds_ignored(v1, i1, f2, n2) == i1
        }),
{
    let f1 = ds_factor(values.len() as int, max_len);
    let n1 = ds_len(values.len() as int, f1);
    let v1 = ds_values(values, ignored, f1, n1, agg);
    let i1 = ds_ignored(values, ignored, f1, n1);
    lemma_ds_len_le_max(values.len() as int, max_len);
    lemma_ds_values_len(values, ignored, f1, n1, agg);
    if values.len() >= 1 {
        crate::downscale::lemma_factor_bounds(values.len() as int, max_len);
    }
    assert(v1.len() == n1);
    let f2 = ds_factor(n1, max_len);
    assert(f2 == 1) by {
        if n1 >= 1 {
            vstd::arithmetic::div_mod::lemma_basic_div(n1 - 1, max_len);
        }
    }
    let n2 = ds_len(n1, 1);
    assert(n2 == n1);
    lemma_ds_ignored_contains(values, ignored, f1, n1);
    lemma_ds_ignored_increasing(values, ignored, f1, n1);
    assert forall|k: int| 0 <= k < n1 implies singleton_keeps(v1, i1, k, agg) by {
        lemma_ds_values_index(values, ignored, f1, n1, agg, k);
        lemma_singleton_bucket(values, ignored, f1, n1, agg, k);
    }
    lemma_second_pass_values(v1, i1, n1, agg);
    assert forall|k: int| 0 <= k < n1 implies (bucket_ignored(v1, i1, 1, k) <==> i1.contains(
        #[trigger] (k as u32),
    )) by {
        assert(singleton_keeps(v1, i1, k, agg));
    }
    lemma_second_pass_ignored(v1, i1, n1);
    assert(ds_values(v1, i1, 1, n1, agg) =~= v1);
}

/// What one singleton bucket of the second pass must yield.
spec fn singleton_keeps(v1: Seq<u32>, i1: Seq<u32>, k: int, agg: Aggregation) -> bool {
    &&& bucket_value(v1, i1, 1, k, agg) == v1[k] as int
    &&& (bucket_ignored(v1, i1, 1, k) <==> i1.contains(k as u32))
}

/// A singleton bucket of the second pass returns the entry itself: an
/// ignored entry is zero already, a kept one is its own sum and mean.
proof fn lemma_singleton_bucket(
    values: Seq<u32>,
    ignored: Seq<u32>,
    f1: int,
    n1: int,
    agg: Aggregation,
    k: int,
)
    requires
        1 <= f1,
        0 <= k < n1,
        n1 <= u32::MAX,
        ds_values(values, ignored, f1, n1, agg).len() == n1,
        ds_values(values, ignored, f1, n1, agg)[k] == bucket_value(values, ignored, f1, k, agg),
        forall|x: u32|
            #[trigger] ds_ignored(values, ignored, f1, n1).contains(x) <==> (x < n1
                && bucket_ignored(values, ignored, f1, x as int)),
    ensures
        singleton_keeps(
            ds_values(values, ignored, f1, n1, agg),
            ds_ignored(values, ignored, f1, n1),
            k,
            agg,
        ),
{
    let v1 = ds_values(values, ignored, f1, n1, agg);
    let i1 = ds_ignored(values, ignored, f1, n1);
    vstd::arithmetic::mul::lemma_mul_basics(k);
    assert(k * 1 == k);
    let lo = k;
    let hi = bucket_hi(k, 1, n1);
    assert(hi == k + 1);
    assert(range_sum(v1, i1, k, k) == 0);
    assert(range_count(v1, i1, k, k) == 0);
    assert(range_sum(v1, i1, k, k + 1) == if kept(v1, i1, k) {
        v1[k] as int
    } else {
        0
    });
    assert(range_count(v1, i1, k, k + 1) == if kept(v1, i1, k) {
        1int
    } else {
        0
    });
    if i1.contains(k as u32) {
        assert(bucket_ignored(values, ignored, f1, k));
        assert(v1[k] == 0);
    }
}

/// The second pass with factor 1 rebuilds the same series.
proof fn lemma_second_pass_values(v1: Seq<u32>, i1: Seq<u32>, n: int, agg: Aggregation)
    requires
        0 <= n <= v1.len(),
        forall|k: int| 0 <= k < n ==> #[trigger] singleton_keeps(v1, i1, k, agg),
    ensures
        ds_values(v1, i1, 1, n, agg) == v1.take(n),
    decreases n,
{
    if n == 0 {
        assert(ds_values(v1, i1, 1, 0, agg) =~= v1.take(0));
    } else {
        lemma_second_pass_values(v1, i1, n - 1, agg);
        assert(singleton_keeps(v1, i1, n - 1, agg));
        assert(ds_values(v1, i1, 1, n, agg) =~= v1.take(n));
    }
}

/// The second pass with factor 1 rebuilds the same ignored set.
proof fn lemma_second_pass_ignored(v1: Seq<u32>, i1: Seq<u32>, n: int)
    requires
        0 <= n,
        n == v1.len(),
        n <= u32::MAX,
        forall|k: int|
            0 <= k < n ==> (bucket_ignored(v1, i1, 1, k) <==> i1.contains(#[trigger] (k as u32))),
        increasing_filter(i1, n),
    ensures
        ds_ignored(v1, i1, 1, n) == i1,
{
    lemma_filter_rebuild(v1, i1, n);
}

/// Whether `i1` lists, in increasing order without repetition, exactly
/// the indices below `n` that it contains.
pub open spec fn increasing_filter(i1: Seq<u32>, n: int) -> bool {
    &&& forall|a: int, b: int| 0 <= a < b < i1.len() ==> i1[a] < i1[b]
    &&& forall|a: int| 0 <= a < i1.len() ==> i1[a] < n
}

/// The aggregated ignored set is increasing.
pub proof fn lemma_ds_ignored_increasing(values: Seq<u32>, ignored: Seq<u32>, f: int, n: int)
    requires
        0 <= n <= u32::MAX,
    ensures
        increasing_filter(ds_ignored(values, ignored, f, n), n),
        ds_ignored(values, ignored, f, n).len() <= n,
    decreases n,
{
    if n > 0 {
        lemma_ds_ignored_increasing(values, ignored, f, n - 1);
    }
}

/// Rebuilding an increasing filter from its membership gives it back.
proof fn lemma_filter_rebuild(v1: Seq<u32>, i1: Seq<u32>, n: int)
    requires
        0 <= n,
        n <= u32::MAX,
        forall|k: int|
            0 <= k < n ==> (bucket_ignored(v1, i1, 1, k) <==> i1.contains(#[trigger] (k as u32))),
        increasing_filter(i1, n),
    ensures
        ds_ignored(v1, i1, 1, n) == i1,
    decreases n,
{
    if n == 0 {
        assert(i1.len() == 0) by {
            if i1.len() > 0 {
                assert(i1[0] < 0);
            }
        }
        assert(ds_ignored(v1, i1, 1, 0) =~= i1);
    } else if i1.len() > 0 && i1[i1.len() - 1] == (n - 1) as u32 {
        let shorter = i1.drop_last();
        lemma_members_shift(v1, i1, shorter, n);
        lemma_filter_rebuild_inner(v1, i1, shorter, n - 1);
        assert(ds_ignored(v1, i1, 1, n) =~= i1);
    } else {
        assert(!i1.contains((n - 1) as u32)) by {
            if i1.contains((n - 1) as u32) {
                let a = choose|a: int| 0 <= a < i1.len() && i1[a] == (n - 1) as u32;
                assert(a < i1.len() - 1 ==> i1[a] < i1[i1.len() - 1]);
            }
        }
        lemma_filter_rebuild_inner(v1, i1, i1, n - 1);
        assert(ds_ignored(v1, i1, 1, n) =~= i1);
    }
}

/// Membership below `n - 1` is unchanged by dropping a last element equal
/// to `n - 1`.
proof fn lemma_members_shift(v1: Seq<u32>, i1: Seq<u32>, shorter: Seq<u32>, n: int)
    requires
        1 <= n,
        n <= u32::MAX,
        i1.len() > 0,
        i1[i1.len() - 1] == (n - 1) as u32,
        shorter == i1.drop_last(),
        increasing_filter(i1, n),
    ensures
        forall|x: u32| x < n - 1 ==> (#[trigger] shorter.contains(x) <==> i1.contains(x)),
        increasing_filter(shorter, n - 1),
{
    assert forall|x: u32| x < n - 1 implies (#[trigger] shorter.contains(x) <==> i1.contains(
        x,
    )) by {
        if shorter.contains(x) {
            let a = choose|a: int| 0 <= a < shorter.len() && shorter[a] == x;
            assert(i1[a] == x);
        }
        if i1.contains(x) {
            let a = choose|a: int| 0 <= a < i1.len() && i1[a] == x;
            assert(a < i1.len() - 1);
            assert(shorter[a] == x);
        }
    }
}

/// The recursion that rebuilds an increasing filter, peeled one step.
proof fn lemma_filter_rebuild_inner(v1: Seq<u32>, i1: Seq<u32>, prefix: Seq<u32>, n: int)
    requires
        0 <= n,
        n + 1 <= u32::MAX,
        forall|k: int|
            0 <= k < n + 1 ==> (bucket_ignored(v1, i1, 1, k) <==> i1.contains(
                #[trigger] (k as u32),
            )),
        forall|x: u32| x < n ==> (#[trigger] prefix.contains(x) <==> i1.contains(x)),
        increasing_filter(prefix, n),
    ensures
        ds_ignored(v1, i1, 1, n) == prefix,
    decreases n,
{
    if n == 0 {
        assert(prefix.len() == 0) by {
            if prefix.len() > 0 {
                assert(prefix[0] < 0);
            }
        }
        assert(ds_ignored(v1, i1, 1, 0) =~= prefix);
    } else if prefix.len() > 0 && prefix[prefix.len() - 1] == (n - 1) as u32 {
        let shorter = prefix.drop_last();
        lemma_members_shift(v1, prefix, shorter, n);
        assert forall|x: u32| x < n - 1 implies (#[trigger] shorter.contains(x) <==> i1.contains(
            x,
        )) by {
            assert(shorter.contains(x) <==> prefix.contains(x));
        }
        assert(bucket_ignored(v1, i1, 1, n - 1)) by {
            assert(prefix.contains((n - 1) as u32)) by {
                assert(prefix[prefix.len() - 1] == (n - 1) as u32);
            }
        }
        lemma_filter_rebuild_inner(v1, i1, shorter, n - 1);
        assert(ds_ignored(v1, i1, 1, n) =~= prefix);
    } else {
        assert(!prefix.contains((n - 1) as u32)) by {
            if prefix.contains((n - 1) as u32) {
                let a = choose|a: int| 0 <= a < prefix.len() && prefix[a] == (n - 1) as u32;
                assert(a < prefix.len() - 1 ==> prefix[a] < prefix[prefix.len() - 1]);
            }
        }
        assert(!bucket_ignored(v1, i1, 1, n - 1));
        lemma_filter_rebuild_inner(v1, i1, prefix, n - 1);
        assert(ds_ignored(v1, i1, 1, n) =~= prefix);
    }
}

} // verus!
