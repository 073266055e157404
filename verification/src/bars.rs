//! The rows of the two bar orientations, as runs: which cells a bar
//! fills, where the threshold marker lands, and which color every run
//! gets.

use vstd::prelude::*;

verus! {

use crate::geometry::{cells, lemma_cells_le_span, scaled_cells, Rounding};
use vstd::arithmetic::div_mod::{lemma_div_by_self, lemma_div_is_ordered, lemma_fundamental_div_mod};
use crate::paint::{glyph_run, render_runs, run_views, runs_cells, Run, RunV};
use crate::style::Theme;
use crate::textfmt::{lemma_repeat_seq_len, repeat_seq};

/// The background color of a bar: the bad color exactly when the value
/// reaches the threshold.
pub open spec fn bar_tint(v: int, c: int, th: Theme) -> int {
    if v >= c {
        th.bad as int
    } else {
        th.good as int
    }
}

/// The runs of one horizontal bar row of width `w`, on a scale with
/// maximum `m`.  `cl` is the cell of the threshold marker, already
/// clipped: `cl == w` means no marker is drawn.  An ignored bar is a
/// full-width blank run in the no-data color.  Otherwise the bar fills
/// `floor(v * w / m)` cells; the marker is drawn inside the filled stretch
/// when it falls there, else in the remainder, keeping the bar's
/// background only when the bar is at or above the threshold.
pub open spec fn hbar_runs(v: int, ign: bool, w: int, m: int, cl: int, c: int, th: Theme) -> Seq<
    RunV,
> {
    if ign {
        seq![
            (RunV { text: repeat_seq(" "@, w), fg: 0, bg: th.empty as int, bold: false }),
        ]
    } else {
        let col = bar_tint(v, c, th);
        let b = cells(v, w, m, Rounding::Down);
        if cl >= w {
            seq![
                (RunV { text: repeat_seq(" "@, b), fg: 0, bg: col, bold: false }),
                (RunV { text: repeat_seq(" "@, w - b), fg: 0, bg: 0, bold: false }),
            ]
        } else if cl < b {
            seq![
                (RunV { text: repeat_seq(" "@, cl), fg: 0, bg: col, bold: false }),
                (RunV { text: repeat_seq("\u{254f}"@, 1), fg: th.cutout as int, bg: col, bold: false }),
                (RunV { text: repeat_seq(" "@, b - cl - 1), fg: 0, bg: col, bold: false }),
                (RunV { text: repeat_seq(" "@, w - b), fg: 0, bg: 0, bold: false }),
            ]
        } else {
            seq![
                (RunV { text: repeat_seq(" "@, b), fg: 0, bg: col, bold: false }),
                (RunV { text: repeat_seq(" "@, cl - b), fg: 0, bg: 0, bold: false }),
                (RunV {
                    text: repeat_seq("\u{254f}"@, 1),
                    fg: th.cutout as int,
                    bg: if v >= c {
                        th.bad as int
                    } else {
                        0
                    },
                    bold: false,
                }),
                (RunV { text: repeat_seq(" "@, w - cl - 1), fg: 0, bg: 0, bold: false }),
            ]
        }
    }
}

/// Builds the string of one horizontal bar row.
pub fn hbar_row(v: u32, ign: bool, w: u32, m: u32, cl: u32, c: u32, th: &Theme) -> (s: String)
    requires
        1 <= m,
        v <= m,
        cl <= w,
    ensures
        s@ == crate::paint::runs_render(
            hbar_runs(v as int, ign, w as int, m as int, cl as int, c as int, *th),
        ),
{
    let mut runs: Vec<Run> = Vec::new();
    if ign {
        runs.push(glyph_run(" ", w as usize, 0, th.empty));
    } else {
        let col: u8 = if v >= c {
            th.bad
        } else {
            th.good
        };
        let b = scaled_cells(v as u64, w, m as u64, Rounding::Down);
        proof {
            lemma_cells_le_span(v as int, w as int, m as int, Rounding::Down);
        }
        if cl >= w {
            runs.push(glyph_run(" ", b as usize, 0, col));
            runs.push(glyph_run(" ", (w - b) as usize, 0, 0));
        } else if cl < b {
            runs.push(glyph_run(" ", cl as usize, 0, col));
            runs.push(glyph_run("\u{254f}", 1, th.cutout, col));
            runs.push(glyph_run(" ", (b - cl - 1) as usize, 0, col));
            runs.push(glyph_run(" ", (w - b) as usize, 0, 0));
        } else {
            runs.push(glyph_run(" ", b as usize, 0, col));
            runs.push(glyph_run(" ", (cl - b) as usize, 0, 0));
            runs.push(glyph_run("\u{254f}", 1, th.cutout, if v >= c {
                th.bad
            } else {
                0
            }));
            runs.push(glyph_run(" ", (w - cl - 1) as usize, 0, 0));
        }
    }
    let s = render_runs(&runs);
    proof {
        assert(run_views(runs@) =~= hbar_runs(
            v as int,
            ign,
            w as int,
            m as int,
            cl as int,
            c as int,
            *th,
        ));
    }
    s
}

/// A horizontal bar row always shows exactly `w` cells.
pub proof fn lemma_hbar_cells(v: int, ign: bool, w: int, m: int, cl: int, c: int, th: Theme)
    requires
        0 <= v <= m,
        1 <= m,
        0 <= w,
        0 <= cl <= w,
    ensures
        runs_cells(hbar_runs(v, ign, w, m, cl, c, th)) == w,
{
    reveal_strlit(" ");
    reveal_strlit("\u{254f}");
    let rs = hbar_runs(v, ign, w, m, cl, c, th);
    lemma_cells_le_span(v, w, m, Rounding::Down);
    let b = cells(v, w, m, Rounding::Down);
    lemma_repeat_seq_len(" "@, w);
    lemma_repeat_seq_len(" "@, b);
    lemma_repeat_seq_len(" "@, w - b);
    lemma_repeat_seq_len("\u{254f}"@, 1);
    if ign {
        lemma_runs_cells1(rs);
    } else if cl >= w {
        lemma_runs_cells2(rs);
    } else if cl < b {
        lemma_repeat_seq_len(" "@, cl);
        lemma_repeat_seq_len(" "@, b - cl - 1);
        lemma_runs_cells4(rs);
    } else {
        lemma_repeat_seq_len(" "@, cl - b);
        lemma_repeat_seq_len(" "@, w - cl - 1);
        lemma_runs_cells4(rs);
    }
}

pub proof fn lemma_runs_cells1(rs: Seq<RunV>)
    requires
        rs.len() == 1,
    ensures
        runs_cells(rs) == rs[0].text.len(),
{
    assert(rs.drop_last() =~= Seq::<RunV>::empty());
    assert(runs_cells(Seq::<RunV>::empty()) == 0);
    assert(runs_cells(rs) == runs_cells(rs.drop_last()) + rs.last().text.len());
}

pub proof fn lemma_runs_cells2(rs: Seq<RunV>)
    requires
        rs.len() == 2,
    ensures
        runs_cells(rs) == rs[0].text.len() + rs[1].text.len(),
{
    let dl = rs.drop_last();
    lemma_runs_cells1(dl);
    assert(runs_cells(rs) == runs_cells(dl) + rs.last().text.len());
    assert(dl[0] == rs[0]);
}

pub proof fn lemma_runs_cells4(rs: Seq<RunV>)
    requires
        rs.len() == 4,
    ensures
        runs_cells(rs) == rs[0].text.len() + rs[1].text.len() + rs[2].text.len() + rs[3].text.len(),
{
    let d1 = rs.drop_last();
    let d2 = d1.drop_last();
    lemma_runs_cells2(d2);
    assert(runs_cells(d1) == runs_cells(d2) + d1.last().text.len());
    assert(runs_cells(rs) == runs_cells(d1) + rs.last().text.len());
    assert(d2[0] == rs[0] && d2[1] == rs[1] && d1[2] == rs[2]);
}

/// Builds all rows of a horizontal chart: one row per bar, each repeated
/// `h / len` times so every bar is equally thick.  The scale maximum `m`,
/// the threshold `c` and the marker cell `cl` are fixed by the caller,
/// which is where the two horizontal variants differ.
pub fn hrows_build(
    values: &Vec<u32>,
    ignored: &Vec<u32>,
    w: u32,
    h: u32,
    m: u32,
    cl: u32,
    c: u32,
    th: &Theme,
) -> (lines: Vec<String>)
    requires
        1 <= m,
        forall|k: int| 0 <= k < values@.len() ==> values@[k] <= m,
        cl <= w,
        1 <= values@.len(),
        values@.len() <= h,
    ensures
        ({
            let len = values@.len() as int;
            let factor = h as int / len;
            &&& lines@.len() == factor * len
            &&& lines@.len() <= h
            &&& 1 <= factor
            &&& forall|i: int|
                0 <= i < lines@.len() ==> lines@[i]@ == crate::paint::runs_render(
                    hbar_runs(
                        values@[i / factor] as int,
                        ignored@.contains((i / factor) as u32),
                        w as int,
                        m as int,
                        cl as int,
                        c as int,
                        *th,
                    ),
                )
        }),
{
    let len = values.len();
    let factor: usize = (h as usize) / len;
    proof {
        lemma_div_by_self(len as int);
        lemma_div_is_ordered(len as int, h as int, len as int);
        lemma_fundamental_div_mod(h as int, len as int);
        vstd::arithmetic::div_mod::lemma_remainder_lower(h as int, len as int);
        assert((len as int) * (factor as int) == (factor as int) * (len as int))
            by (nonlinear_arith);
    }
    let mut lines: Vec<String> = Vec::new();
    let mut k: usize = 0;
    while k < len
        invariant
            k <= len,
            len == values@.len(),
            1 <= len <= h,
            1 <= m,
            cl <= w,
            forall|j: int| 0 <= j < values@.len() ==> values@[j] <= m,
            factor as int == h as int / len as int,
            1 <= factor,
            (factor * len) as int <= h as int,
            lines@.len() == factor * k,
            forall|i: int|
                0 <= i < lines@.len() ==> lines@[i]@ == crate::paint::runs_render(
                    hbar_runs(
                        values@[i / factor as int] as int,
                        ignored@.contains((i / factor as int) as u32),
                        w as int,
                        m as int,
                        cl as int,
                        c as int,
                        *th,
                    ),
                ),
        decreases len - k,
    {
        proof {
            lemma_mul_le_mono(k as int + 1, len as int, factor as int);
        }
        let row = hbar_row(
            values[k],
            crate::downscale::contains_u32(ignored, k as u32),
            w,
            m,
            cl,
            c,
            th,
        );
        let mut rep: usize = 0;
        while rep < factor
            invariant
                rep <= factor,
                k < len,
                len == values@.len(),
                1 <= len <= h,
                1 <= m,
                cl <= w,
                forall|j: int| 0 <= j < values@.len() ==> values@[j] <= m,
                factor as int == h as int / len as int,
                1 <= factor,
                (factor * len) as int <= h as int,
                (k as int + 1) * factor as int <= (factor * len) as int,
                lines@.len() == factor * k + rep,
                row@ == crate::paint::runs_render(
                    hbar_runs(
                        values@[k as int] as int,
                        ignored@.contains(k as u32),
                        w as int,
                        m as int,
                        cl as int,
                        c as int,
                        *th,
                    ),
                ),
                forall|i: int|
                    0 <= i < lines@.len() ==> lines@[i]@ == crate::paint::runs_render(
                        hbar_runs(
                            values@[i / factor as int] as int,
                            ignored@.contains((i / factor as int) as u32),
                            w as int,
                            m as int,
                            cl as int,
                            c as int,
                            *th,
                        ),
                    ),
            decreases factor - rep,
        {
            proof {
                assert((k as int + 1) * factor as int == factor as int * k as int
                    + factor as int) by (nonlinear_arith);
                assert((factor as int) * (k as int) == (factor * k) as int) by (nonlinear_arith);
            }
            lines.push(row.clone());
            proof {
                let i0 = (factor * k + rep) as int;
                vstd::arithmetic::div_mod::lemma_div_multiples_vanish_fancy(
                    k as int,
                    rep as int,
                    factor as int,
                );
                assert(factor as int * k as int + rep as int == i0);
                assert(i0 / factor as int == k as int);
            }
            rep += 1;
        }
        proof {
            assert(factor * k + factor == factor * (k + 1)) by (nonlinear_arith);
        }
        k += 1;
    }
    lines
}

/// Multiplying both sides of `a <= b` by a non-negative factor keeps the
/// order.
pub proof fn lemma_mul_le_mono(a: int, b: int, f: int)
    requires
        a <= b,
        0 <= f,
    ensures
        a * f <= b * f,
        a * f == f * a,
{
    vstd::arithmetic::mul::lemma_mul_inequality(a, b, f);
    vstd::arithmetic::mul::lemma_mul_is_commutative(a, f);
}

/// The run one data point contributes to one vertical chart row.  `rb` is
/// the row counted from the bottom, `cut_rb` the row of the threshold
/// line, `factor` the column width of one data point.  A cell is filled
/// when `rb` lies under the bar's rounded height; the threshold row shows
/// the marker glyphs, over the bar's color inside a bar, over the bad
/// color on a bar at or above the threshold even where the bar has ended,
/// and uncolored elsewhere.
pub open spec fn vbar_run(
    v: int,
    ign: bool,
    rb: int,
    h: int,
    m: int,
    cut_rb: int,
    factor: int,
    c: int,
    th: Theme,
) -> RunV {
    if ign {
        RunV { text: repeat_seq(" "@, factor), fg: 0, bg: th.empty as int, bold: false }
    } else {
        let filled = rb < cells(v, h, m, Rounding::Nearest);
        let oncut = rb == cut_rb;
        if filled {
            RunV {
                text: if oncut {
                    repeat_seq("\u{254d}"@, factor)
                } else {
                    repeat_seq(" "@, factor)
                },
                fg: if oncut {
                    th.cutout as int
                } else {
                    0
                },
                bg: bar_tint(v, c, th),
                bold: false,
            }
        } else if oncut && v >= c {
            RunV {
                text: repeat_seq("\u{254d}"@, factor),
                fg: th.cutout as int,
                bg: th.bad as int,
                bold: false,
            }
        } else if oncut {
            RunV { text: repeat_seq("\u{254d}"@, factor), fg: th.cutout as int, bg: 0, bold: false }
        } else {
            RunV { text: repeat_seq(" "@, factor), fg: 0, bg: 0, bold: false }
        }
    }
}

/// One whole vertical chart row: the runs of all data points, left to
/// right.
pub open spec fn vbar_row(
    values: Seq<u32>,
    ignored: Seq<u32>,
    rb: int,
    h: int,
    m: int,
    cut_rb: int,
    factor: int,
    c: int,
    th: Theme,
) -> Seq<RunV> {
    Seq::new(
        values.len(),
        |k: int|
            vbar_run(
                values[k] as int,
                ignored.contains(k as u32),
                rb,
                h,
                m,
                cut_rb,
                factor,
                c,
                th,
            ),
    )
}

/// Builds the string of one vertical chart row.
pub fn vbar_row_string(
    values: &Vec<u32>,
    ignored: &Vec<u32>,
    rb: u32,
    h: u32,
    m: u32,
    cut_rb: u32,
    factor: u32,
    c: u32,
    th: &Theme,
) -> (s: String)
    requires
        1 <= m,
        forall|k: int| 0 <= k < values@.len() ==> values@[k] <= m,
        values@.len() <= u32::MAX,
    ensures
        s@ == crate::paint::runs_render(
            vbar_row(
                values@,
                ignored@,
                rb as int,
                h as int,
                m as int,
                cut_rb as int,
                factor as int,
                c as int,
                *th,
            ),
        ),
{
    let ghost target = vbar_row(
        values@,
        ignored@,
        rb as int,
        h as int,
        m as int,
        cut_rb as int,
        factor as int,
        c as int,
        *th,
    );
    let mut runs: Vec<Run> = Vec::new();
    let mut k: usize = 0;
    while k < values.len()
        invariant
            k <= values@.len(),
            values@.len() <= u32::MAX,
            1 <= m,
            forall|j: int| 0 <= j < values@.len() ==> values@[j] <= m,
            target == vbar_row(
                values@,
                ignored@,
                rb as int,
                h as int,
                m as int,
                cut_rb as int,
                factor as int,
                c as int,
                *th,
            ),
            run_views(runs@) =~= target.take(k as int),
        decreases values@.len() - k,
    {
        let v = values[k];
        let ign = crate::downscale::contains_u32(ignored, k as u32);
        let fill_h = scaled_cells(v as u64, h, m as u64, Rounding::Nearest);
        let oncut = rb == cut_rb;
        let filled = rb < fill_h;
        let r: Run = if ign {
            glyph_run(" ", factor as usize, 0, th.empty)
        } else if filled {
            let col: u8 = if v >= c {
                th.bad
            } else {
                th.good
            };
            if oncut {
                glyph_run("\u{254d}", factor as usize, th.cutout, col)
            } else {
                glyph_run(" ", factor as usize, 0, col)
            }
        } else if oncut && v >= c {
            glyph_run("\u{254d}", factor as usize, th.cutout, th.bad)
        } else if oncut {
            glyph_run("\u{254d}", factor as usize, th.cutout, 0)
        } else {
            glyph_run(" ", factor as usize, 0, 0)
        };
        let ghost pre = runs@;
        runs.push(r);
        proof {
            assert(target[k as int] == vbar_run(
                values@[k as int] as int,
                ignored@.contains(k as u32),
                rb as int,
                h as int,
                m as int,
                cut_rb as int,
                factor as int,
                c as int,
                *th,
            ));
            assert(r@ == target[k as int]);
            assert(run_views(pre).len() == pre.len());
            assert(pre.len() == k as int);
            assert forall|i: int| 0 <= i < k + 1 implies #[trigger] run_views(runs@)[i]
                == target[i] by {
                if i < k as int {
                    assert(runs@[i] == pre[i]);
                    assert(run_views(pre)[i] == pre[i]@);
                    assert(target.take(k as int)[i] == target[i]);
                } else {
                    assert(runs@[i] == r);
                }
            }
            assert(run_views(runs@) =~= target.take(k as int + 1));
        }
        k += 1;
    }
    proof {
        assert(target.take(values@.len() as int) =~= target);
    }
    render_runs(&runs)
}

/// A vertical chart row always shows `len * factor` cells.
pub proof fn lemma_vbar_row_cells(
    values: Seq<u32>,
    ignored: Seq<u32>,
    rb: int,
    h: int,
    m: int,
    cut_rb: int,
    factor: int,
    c: int,
    th: Theme,
)
    requires
        0 <= factor,
    ensures
        runs_cells(vbar_row(values, ignored, rb, h, m, cut_rb, factor, c, th)) == values.len()
            * factor,
{
    reveal_strlit(" ");
    reveal_strlit("\u{254d}");
    let rs = vbar_row(values, ignored, rb, h, m, cut_rb, factor, c, th);
    assert forall|i: int| 0 <= i < rs.len() implies #[trigger] rs[i].text.len() == factor by {
        lemma_repeat_seq_len(" "@, factor);
        lemma_repeat_seq_len("\u{254d}"@, factor);
    }
    lemma_runs_cells_uniform(rs, factor);
}

/// A row whose runs all span `cellw` cells shows `len * cellw` cells.
pub proof fn lemma_runs_cells_uniform(rs: Seq<RunV>, cellw: int)
    requires
        forall|i: int| 0 <= i < rs.len() ==> #[trigger] rs[i].text.len() == cellw,
    ensures
        runs_cells(rs) == rs.len() * cellw,
    decreases rs.len(),
{
    if rs.len() == 0 {
        assert(0int * cellw == 0) by (nonlinear_arith);
    } else {
        lemma_runs_cells_uniform(rs.drop_last(), cellw);
        assert(rs.len() * cellw == (rs.len() - 1) * cellw + cellw) by (nonlinear_arith);
    }
}

} // verus!
