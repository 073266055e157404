//! Chart templates: fixed-size horizontal and vertical bar charts, with an
//! optional labeled horizontal variant.
//!
//! This family of charts aggregates merged buckets by their mean, so the
//! threshold keeps its per-entry meaning and is never rescaled, and its
//! scale maximum is taken from the data alone.

use vstd::prelude::*;

verus! {

use crate::bars::{hbar_runs, hrows_build, vbar_row, vbar_row_string};
use crate::downscale::{
    downscale,
    lemma_seq_max_ge,
    seq_max,
    spec_downscaled,
    Aggregation,
    Downscaled,
};
use crate::geometry::{cells, cutout_cell_clipped, threshold_row, threshold_row_clipped, Rounding};
use crate::paint::{runs_render, RunV};
use crate::style::{standard_theme, Theme};
use crate::labels::decorated_row;
use crate::textfmt::{dec_str, repeat_seq, repeat_str};

/// The rendered output: `height` styled rows of `width` visible cells
/// each.
#[derive(Debug)]
pub struct DrawnArea {
    pub area: Vec<String>,
    pub width: u32,
    pub height: u32,
}

impl DrawnArea {
    /// Bundles rendered rows with their dimensions.
    pub fn new(area: Vec<String>, width: u32, height: u32) -> (r: DrawnArea)
        ensures
            r.area == area,
            r.width == width,
            r.height == height,
    {
        DrawnArea { area, width, height }
    }
}

/// A row of a blank chart: unstyled filler glyphs across the whole width.
pub open spec fn blank_row(g: Seq<char>, w: int) -> Seq<RunV> {
    seq![(RunV { text: repeat_seq(g, w), fg: 0, bg: 0, bold: false })]
}

/// A blank chart: `h` blank rows.
pub open spec fn blank_rows(g: Seq<char>, w: int, h: int) -> Seq<Seq<RunV>> {
    Seq::new(h as nat, |i: int| blank_row(g, w))
}

/// The scale maximum of this module's charts: the largest data value, and
/// at least 1 so the all-zero series still divides cleanly.
pub open spec fn chart_scale(values: Seq<u32>) -> int {
    if seq_max(values) >= 1 {
        seq_max(values)
    } else {
        1
    }
}

/// The marker cell of a horizontal chart, clipped to the width; a clipped
/// marker is not drawn.
pub open spec fn hcutout_cell(c: int, w: int, m: int) -> int {
    if cells(c, w, m, Rounding::Down) <= w {
        cells(c, w, m, Rounding::Down)
    } else {
        w
    }
}

/// Every row of the horizontal chart, as runs.  Degenerate input gives a
/// blank grid of the full requested size; otherwise the series is first
/// downscaled to at most `h` buckets by means, and each bar is one row
/// repeated `h / len` times.
pub open spec fn hchart_rows(
    values: Seq<u32>,
    ignored: Seq<u32>,
    w: int,
    h: int,
    c: int,
    th: Theme,
) -> Seq<Seq<RunV>> {
    if values.len() == 0 || w <= 0 || h <= 0 {
        blank_rows(" "@, w, h)
    } else {
        let d = spec_downscaled(values, ignored, h, Aggregation::Mean);
        let vs = d.0;
        let ig = d.1;
        let m = chart_scale(vs);
        let cl = hcutout_cell(c, w, m);
        let len = vs.len() as int;
        let factor = h / len;
        Seq::new(
            (factor * len) as nat,
            |r: int|
                hbar_runs(
                    vs[r / factor] as int,
                    ig.contains((r / factor) as u32),
                    w,
                    m,
                    cl,
                    c,
                    th,
                ),
        )
    }
}

/// One downscaling pass, averaging buckets, as this module's charts apply
/// it.
pub fn downscale_to_biggest_factor(values: &Vec<u32>, ignored: &Vec<u32>, max_length: u32) -> (r: (
    Vec<u32>,
    Vec<u32>,
))
    requires
        1 <= max_length,
        values@.len() <= u32::MAX,
    ensures
        ({
            let f = crate::downscale::ds_factor(values@.len() as int, max_length as int);
            let n = crate::downscale::ds_len(values@.len() as int, f);
            &&& r.0@ == crate::downscale::ds_values(values@, ignored@, f, n, Aggregation::Mean)
            &&& r.1@ == crate::downscale::ds_ignored(values@, ignored@, f, n)
            &&& r.0@.len() <= max_length
        }),
{
    let d = downscale(values, ignored, max_length, Aggregation::Mean);
    (d.values, d.ignored)
}

/// A blank rectangle of `height` rows, each `width` copies of `elem`.
pub fn simple_rectangle(elem: &str, width: u32, height: u32) -> (r: DrawnArea)
    ensures
        r.width == width,
        r.height == height,
        r.area@.len() == height as int,
        forall|i: int| 0 <= i < height as int ==> r.area@[i]@ == repeat_seq(elem@, width as int),
{
    let line = repeat_str(elem, width as usize);
    let mut lines: Vec<String> = Vec::new();
    let mut i: u32 = 0;
    while i < height
        invariant
            i <= height,
            line@ == repeat_seq(elem@, width as int),
            lines@.len() == i as int,
            forall|j: int| 0 <= j < i as int ==> lines@[j]@ == repeat_seq(elem@, width as int),
        decreases height - i,
    {
        lines.push(line.clone());
        i += 1;
    }
    DrawnArea::new(lines, width, height)
}

/// Renders the horizontal bar chart: one row group per data point, bars
/// growing rightward, the threshold marker overlaid where its cell falls
/// inside the width.
pub fn bar_graph_horizontal(
    values: &Vec<u32>,
    max_width: u32,
    max_height: u32,
    cutout: u32,
    ignored: &Vec<u32>,
) -> (r: DrawnArea)
    requires
        values@.len() <= u32::MAX,
    ensures
        ({
            let rows = hchart_rows(
                values@,
                ignored@,
                max_width as int,
                max_height as int,
                cutout as int,
                standard_theme(),
            );
            &&& r.width == max_width
            &&& r.height as int == rows.len()
            &&& r.area@.len() == rows.len()
            &&& forall|i: int| 0 <= i < rows.len() ==> r.area@[i]@ == runs_render(rows[i])
        }),
{
    let ghost rows = hchart_rows(
        values@,
        ignored@,
        max_width as int,
        max_height as int,
        cutout as int,
        standard_theme(),
    );
    if values.len() == 0 || max_width == 0 || max_height == 0 {
        let r = simple_rectangle(" ", max_width, max_height);
        proof {
            assert forall|i: int| 0 <= i < rows.len() implies runs_render(rows[i]) == repeat_seq(
                " "@,
                max_width as int,
            ) by {
                crate::paint::lemma_runs_render1(rows[i]);
            }
        }
        return r;
    }
    let th = Theme::standard();
    let ds: Downscaled;
    let (vs, ig): (&Vec<u32>, &Vec<u32>) = if values.len() > max_height as usize {
        ds = downscale(values, ignored, max_height, Aggregation::Mean);
        (&ds.values, &ds.ignored)
    } else {
        (values, ignored)
    };
    let mx = crate::downscale::series_max(vs);
    let m: u32 = if mx >= 1 {
        mx
    } else {
        1
    };
    proof {
        assert forall|k: int| 0 <= k < vs@.len() implies vs@[k] <= m by {
            lemma_seq_max_ge(vs@, k);
        }
    }
    let cl = cutout_cell_clipped(cutout as u64, max_width, m as u64);
    let lines = hrows_build(vs, ig, max_width, max_height, m, cl, cutout, &th);
    let height = lines.len();
    proof {
        let len = vs@.len() as int;
        let factor = max_height as int / len;
        assert(rows.len() == factor * len);
        assert forall|i: int| 0 <= i < rows.len() implies lines@[i]@ == runs_render(rows[i]) by {
            assert(rows[i] == hbar_runs(
                vs@[i / factor] as int,
                ig@.contains((i / factor) as u32),
                max_width as int,
                m as int,
                cl as int,
                cutout as int,
                standard_theme(),
            ));
        }
    }
    DrawnArea::new(lines, max_width, height as u32)
}

/// The row, counted from the bottom, that carries the threshold line of a
/// vertical chart, clipped to the height.
pub open spec fn vcutout_row(c: int, h: int, m: int) -> int {
    if threshold_row(c, h, m) <= h {
        threshold_row(c, h, m)
    } else {
        h
    }
}

/// Every row of the vertical chart, as runs, top row first.  Degenerate
/// input gives a blank grid; otherwise the series is first downscaled to
/// at most `w` buckets by means, and each data point owns a column group
/// `w / len` cells wide.
pub open spec fn vchart_rows(
    values: Seq<u32>,
    ignored: Seq<u32>,
    w: int,
    h: int,
    c: int,
    th: Theme,
) -> Seq<Seq<RunV>> {
    if values.len() == 0 || w <= 0 || h <= 0 {
        blank_rows(" "@, w, h)
    } else {
        let d = spec_downscaled(values, ignored, w, Aggregation::Mean);
        let vs = d.0;
        let ig = d.1;
        let m = chart_scale(vs);
        let cut_rb = vcutout_row(c, h, m);
        let len = vs.len() as int;
        let factor = w / len;
        Seq::new(
            h as nat,
            |r: int| vbar_row(vs, ig, h - 1 - r, h, m, cut_rb, factor, c, th),
        )
    }
}

/// Renders the vertical bar chart: bars grow upward, one column group per
/// data point, and the whole threshold row is marked.
pub fn bar_graph_vertical(
    values: &Vec<u32>,
    max_width: u32,
    max_height: u32,
    cutout: u32,
    ignored: &Vec<u32>,
) -> (r: DrawnArea)
    requires
        values@.len() <= u32::MAX,
    ensures
        ({
            let rows = vchart_rows(
                values@,
                ignored@,
                max_width as int,
                max_height as int,
                cutout as int,
                standard_theme(),
            );
            &&& r.height == max_height
            &&& r.area@.len() == rows.len()
            &&& forall|i: int| 0 <= i < rows.len() ==> r.area@[i]@ == runs_render(rows[i])
            &&& if values@.len() == 0 || max_width == 0 || max_height == 0 {
                r.width == max_width
            } else {
                let len = spec_downscaled(
                    values@,
                    ignored@,
                    max_width as int,
                    Aggregation::Mean,
                ).0.len() as int;
                r.width as int == (max_width as int / len) * len
            }
        }),
{
    let ghost rows = vchart_rows(
        values@,
        ignored@,
        max_width as int,
        max_height as int,
        cutout as int,
        standard_theme(),
    );
    if values.len() == 0 || max_width == 0 || max_height == 0 {
        let r = simple_rectangle(" ", max_width, max_height);
        proof {
            assert forall|i: int| 0 <= i < rows.len() implies runs_render(rows[i]) == repeat_seq(
                " "@,
                max_width as int,
            ) by {
                crate::paint::lemma_runs_render1(rows[i]);
            }
        }
        return r;
    }
    let th = Theme::standard();
    let ds: Downscaled;
    let (vs, ig): (&Vec<u32>, &Vec<u32>) = if values.len() > max_width as usize {
        ds = downscale(values, ignored, max_width, Aggregation::Mean);
        (&ds.values, &ds.ignored)
    } else {
        (values, ignored)
    };
    let mx = crate::downscale::series_max(vs);
    let m: u32 = if mx >= 1 {
        mx
    } else {
        1
    };
    proof {
        assert forall|k: int| 0 <= k < vs@.len() implies vs@[k] <= m by {
            lemma_seq_max_ge(vs@, k);
        }
    }
    let cut_rb = threshold_row_clipped(cutout as u64, max_height, m as u64);
    let len = vs.len();
    let factor: u32 = ((max_width as usize) / len) as u32;
    proof {
        lemma_vwidth_fits(max_width as int, len as int);
        assert((factor as int) * (len as int) <= max_width as int);
    }
    let actual_width: u32 = factor * (len as u32);
    let mut lines: Vec<String> = Vec::new();
    let mut i: u32 = max_height;
    while i >= 1
        invariant
            0 <= i <= max_height,
            len == vs@.len(),
            1 <= len,
            len <= max_width,
            vs@.len() <= u32::MAX,
            1 <= m,
            forall|k: int| 0 <= k < vs@.len() ==> vs@[k] <= m,
            factor as int == max_width as int / len as int,
            cut_rb as int == vcutout_row(cutout as int, max_height as int, m as int),
            th == standard_theme(),
            lines@.len() == max_height - i,
            rows == vchart_rows(
                values@,
                ignored@,
                max_width as int,
                max_height as int,
                cutout as int,
                standard_theme(),
            ),
            rows.len() == max_height as int,
            forall|j: int|
                0 <= j < lines@.len() ==> lines@[j]@ == runs_render(
                    #[trigger] rows[j],
                ),
            rows == Seq::new(
                max_height as nat,
                |r: int|
                    vbar_row(
                        vs@,
                        ig@,
                        max_height as int - 1 - r,
                        max_height as int,
                        m as int,
                        cut_rb as int,
                        factor as int,
                        cutout as int,
                        standard_theme(),
                    ),
            ),
        decreases i,
    {
        let rb = i - 1;
        let row = vbar_row_string(vs, ig, rb, max_height, m, cut_rb, factor, cutout, &th);
        lines.push(row);
        proof {
            let j = (max_height - i) as int;
            assert(rows[j] == vbar_row(
                vs@,
                ig@,
                max_height as int - 1 - j,
                max_height as int,
                m as int,
                cut_rb as int,
                factor as int,
                cutout as int,
                standard_theme(),
            ));
            assert(max_height as int - 1 - j == rb as int);
        }
        i -= 1;
    }
    DrawnArea::new(lines, actual_width, max_height)
}

/// The width of the value field of this module's labels: the digits of
/// the largest value, at least three, plus the decimal point.
pub open spec fn value_field(maxv: int) -> int {
    (if dec_str(maxv).len() >= 3 {
        dec_str(maxv).len() as int
    } else {
        3
    }) + 1
}

/// Every row of the labeled horizontal chart, as runs.  A series longer
/// than the height is downscaled first only when `shrink` allows it, else
/// the unlabeled chart takes over; so it does when the label fields leave
/// fewer than three cells of bars.
pub open spec fn hlabel_chart_rows(
    values: Seq<u32>,
    ignored: Seq<u32>,
    w: int,
    h: int,
    c: int,
    shrink: bool,
    th: Theme,
) -> Seq<Seq<RunV>> {
    if values.len() == 0 || w <= 0 || h <= 0 {
        blank_rows(" "@, w, h)
    } else if values.len() > h && !shrink {
        hchart_rows(values, ignored, w, h, c, th)
    } else {
        let d = spec_downscaled(values, ignored, h, Aggregation::Mean);
        let vs = d.0;
        let ig = d.1;
        let len = vs.len() as int;
        let mil = dec_str(len).len() as int;
        let lv = value_field(seq_max(vs));
        if w < mil + lv + 8 {
            hchart_rows(values, ignored, w, h, c, th)
        } else {
            let factor = h / len;
            let iw = w - (mil + lv + 5);
            let m = chart_scale(vs);
            let cl = hcutout_cell(c, iw, m);
            Seq::new(
                (factor * len) as nat,
                |r: int|
                    decorated_row(
                        hbar_runs(
                            vs[r / factor] as int,
                            ig.contains((r / factor) as u32),
                            iw,
                            m,
                            cl,
                            c,
                            th,
                        ),
                        r / factor + 1,
                        vs[r / factor] as int,
                        c,
                        ig.contains((r / factor) as u32),
                        r % factor == 0,
                        mil,
                        lv,
                        th,
                    ),
            )
        }
    }
}

/// Renders the labeled horizontal bar chart: each bar's first row carries
/// its 1-based index on the left and its value, formatted as money, on
/// the right; when the fields do not fit, the plain chart is drawn at
/// full width instead.
pub fn bar_graph_horizontal_label(
    values: &Vec<u32>,
    max_width: u32,
    max_height: u32,
    cutout: u32,
    ignored: &Vec<u32>,
    label_shrink: bool,
) -> (r: DrawnArea)
    requires
        values@.len() <= u32::MAX,
    ensures
        ({
            let rows = hlabel_chart_rows(
                values@,
                ignored@,
                max_width as int,
                max_height as int,
                cutout as int,
                label_shrink,
                standard_theme(),
            );
            &&& r.width == max_width
            &&& r.height as int == rows.len()
            &&& r.area@.len() == rows.len()
            &&& forall|i: int| 0 <= i < rows.len() ==> r.area@[i]@ == runs_render(rows[i])
        }),
{
    let ghost rows = hlabel_chart_rows(
        values@,
        ignored@,
        max_width as int,
        max_height as int,
        cutout as int,
        label_shrink,
        standard_theme(),
    );
    if values.len() == 0 || max_width == 0 || max_height == 0 {
        let r = simple_rectangle(" ", max_width, max_height);
        proof {
            assert forall|i: int| 0 <= i < rows.len() implies runs_render(rows[i]) == repeat_seq(
                " "@,
                max_width as int,
            ) by {
                crate::paint::lemma_runs_render1(rows[i]);
            }
        }
        return r;
    }
    if values.len() > max_height as usize && !label_shrink {
        return bar_graph_horizontal(values, max_width, max_height, cutout, ignored);
    }
    let th = Theme::standard();
    let ds: Downscaled;
    let (vs, ig): (&Vec<u32>, &Vec<u32>) = if values.len() > max_height as usize {
        ds = downscale(values, ignored, max_height, Aggregation::Mean);
        (&ds.values, &ds.ignored)
    } else {
        (values, ignored)
    };
    let mil = crate::textfmt::char_len(&crate::textfmt::u32_dec(vs.len() as u32));
    let mx = crate::downscale::series_max(vs);
    let dw = crate::textfmt::char_len(&crate::textfmt::u32_dec(mx));
    proof {
        crate::textfmt::lemma_dec_str_len_u32(vs@.len() as int);
        crate::textfmt::lemma_dec_str_len_u32(mx as int);
    }
    let lv: usize = if dw >= 3 {
        dw + 1
    } else {
        4
    };
    if (max_width as usize) < mil + lv + 8 {
        return bar_graph_horizontal(values, max_width, max_height, cutout, ignored);
    }
    let m: u32 = if mx >= 1 {
        mx
    } else {
        1
    };
    proof {
        assert forall|k: int| 0 <= k < vs@.len() implies vs@[k] <= m by {
            lemma_seq_max_ge(vs@, k);
        }
    }
    let iw: u32 = max_width - (mil + lv + 5) as u32;
    let cl = cutout_cell_clipped(cutout as u64, iw, m as u64);
    proof {
        vstd::arithmetic::mul::lemma_mul_basics(vs@.len() as int - 1);
    }
    let lines = crate::labels::hlabel_build(
        vs,
        ig,
        max_width,
        max_height,
        m,
        cl,
        cutout,
        1,
        mil,
        lv,
        &th,
    );
    let height = lines.len();
    proof {
        let len = vs@.len() as int;
        let factor = max_height as int / len;
        assert(rows.len() == factor * len);
        assert forall|i: int| 0 <= i < rows.len() implies lines@[i]@ == runs_render(rows[i]) by {
            assert(rows[i] == decorated_row(
                hbar_runs(
                    vs@[i / factor] as int,
                    ig@.contains((i / factor) as u32),
                    iw as int,
                    m as int,
                    cl as int,
                    cutout as int,
                    standard_theme(),
                ),
                (i / factor) + 1,
                vs@[i / factor] as int,
                cutout as int,
                ig@.contains((i / factor) as u32),
                i % factor == 0,
                mil as int,
                lv as int,
                standard_theme(),
            ));
        }
    }
    DrawnArea::new(lines, max_width, height as u32)
}

/// A column group is never wider than the chart: `(w / len) * len <= w`.
proof fn lemma_vwidth_fits(w: int, len: int)
    requires
        1 <= len <= w,
    ensures
        1 <= w / len,
        (w / len) * len <= w,
{
    vstd::arithmetic::div_mod::lemma_div_by_self(len);
    vstd::arithmetic::div_mod::lemma_div_is_ordered(len, w, len);
    vstd::arithmetic::div_mod::lemma_fundamental_div_mod(w, len);
    vstd::arithmetic::div_mod::lemma_remainder_lower(w, len);
    assert((w / len) * len == len * (w / len)) by (nonlinear_arith);
}

} // verus!
