//! The label decorator of the horizontal charts: a 1-based index field on
//! the left, a money-formatted value field on the right, and blank pads of
//! the same widths on the continuation rows of thick bars.

use vstd::prelude::*;

verus! {

use crate::bars::{bar_tint, hbar_runs, hbar_row};
use crate::paint::{render_runs, run_views, runs_render, Run, RunV};
use crate::style::Theme;
use crate::textfmt::{char_len, dec_str, pad_left, pad_left_string, repeat_seq, repeat_str, u32_dec};
use vstd::string::{StrSliceExecFns, StringExecFns};

/// The left label of a bar: its 1-based index, right-aligned to `mil`
/// characters between single spaces.
pub open spec fn index_label(idx1: int, mil: int) -> Seq<char> {
    " "@ + pad_left(dec_str(idx1), mil, ' ') + " "@
}

/// The right label of a bar: the value as cents, zero-padded to three
/// digits, right-aligned to `lv` characters, split before the last two
/// digits by a decimal point, with a currency glyph.
pub open spec fn value_label(v: int, lv: int) -> Seq<char> {
    let t = pad_left(pad_left(dec_str(v), 3, '0'), lv, ' ');
    t.take(t.len() - 2) + "."@ + t.skip(t.len() - 2) + "\u{20ac} "@
}

/// The runs prepended to one row: the index label on a bar's first row,
/// a dash placeholder for an ignored bar, blank padding on continuation
/// rows.
pub open spec fn label_prefix(idx1: int, ign: bool, first: bool, mil: int, th: Theme) -> Seq<
    RunV,
> {
    if !first {
        seq![(RunV { text: repeat_seq(" "@, mil + 2), fg: 0, bg: 0, bold: false })]
    } else if ign {
        seq![
            (RunV { text: repeat_seq(" "@, mil), fg: 0, bg: 0, bold: false }),
            (RunV { text: "- "@, fg: th.empty as int, bg: 0, bold: true }),
        ]
    } else {
        seq![(RunV { text: index_label(idx1, mil), fg: th.text as int, bg: 0, bold: true })]
    }
}

/// The runs appended to one row: the value label on a bar's first row in
/// the bar's color, a dashed placeholder for an ignored bar, blank
/// padding on continuation rows.
pub open spec fn label_suffix(v: int, c: int, ign: bool, first: bool, lv: int, th: Theme) -> Seq<
    RunV,
> {
    if !first {
        seq![(RunV { text: repeat_seq(" "@, lv + 3), fg: 0, bg: 0, bold: false })]
    } else if ign {
        seq![
            (RunV { text: repeat_seq(" "@, lv - 3), fg: 0, bg: 0, bold: false }),
            (RunV { text: "----\u{20ac} "@, fg: th.empty as int, bg: 0, bold: true }),
        ]
    } else {
        seq![(RunV { text: value_label(v, lv), fg: bar_tint(v, c, th), bg: 0, bold: true })]
    }
}

/// One labeled row: prefix, the bare bar row, suffix.
pub open spec fn decorated_row(
    inner: Seq<RunV>,
    idx1: int,
    v: int,
    c: int,
    ign: bool,
    first: bool,
    mil: int,
    lv: int,
    th: Theme,
) -> Seq<RunV> {
    label_prefix(idx1, ign, first, mil, th) + inner + label_suffix(v, c, ign, first, lv, th)
}

/// Builds the index label text.
pub fn index_label_string(idx1: u32, mil: usize) -> (s: String)
    ensures
        s@ == index_label(idx1 as int, mil as int),
{
    proof {
        reveal_strlit(" ");
    }
    let mut s = String::from_str(" ");
    s.append(pad_left_string(u32_dec(idx1), mil, " ").as_str());
    s.append(" ");
    proof {
        assert(s@ =~= index_label(idx1 as int, mil as int));
    }
    s
}

/// Builds the value label text.
pub fn value_label_string(v: u32, lv: usize) -> (s: String)
    ensures
        s@ == value_label(v as int, lv as int),
{
    proof {
        reveal_strlit(" ");
        reveal_strlit("0");
        crate::textfmt::lemma_dec_str_len_pos(v as int);
    }
    let t = pad_left_string(pad_left_string(u32_dec(v), 3, "0"), lv, " ");
    let n = char_len(&t);
    let mut s = String::from_str(t.as_str().substring_char(0, n - 2));
    s.append(".");
    s.append(t.as_str().substring_char(n - 2, n));
    s.append("\u{20ac} ");
    proof {
        let tv = pad_left(pad_left(dec_str(v as int), 3, '0'), lv as int, ' ');
        assert(t@.subrange(0, n as int - 2) =~= tv.take(tv.len() - 2));
        assert(t@.subrange(n as int - 2, n as int) =~= tv.skip(tv.len() - 2));
        assert(s@ =~= value_label(v as int, lv as int));
    }
    s
}

/// Builds the prefix string of one row.
fn prefix_string(idx1: u32, ign: bool, first: bool, mil: usize, th: &Theme) -> (s: String)
    requires
        mil + 2 <= usize::MAX,
    ensures
        s@ == runs_render(label_prefix(idx1 as int, ign, first, mil as int, *th)),
{
    let mut runs: Vec<Run> = Vec::new();
    if !first {
        runs.push(crate::paint::glyph_run(" ", mil + 2, 0, 0));
    } else if ign {
        proof {
            reveal_strlit("- ");
        }
        runs.push(crate::paint::glyph_run(" ", mil, 0, 0));
        runs.push(crate::paint::label_run(String::from_str("- "), th.empty, true));
    } else {
        runs.push(crate::paint::label_run(index_label_string(idx1, mil), th.text, true));
    }
    let s = render_runs(&runs);
    proof {
        assert(run_views(runs@) =~= label_prefix(idx1 as int, ign, first, mil as int, *th));
    }
    s
}

/// Builds the suffix string of one row.
fn suffix_string(v: u32, c: u32, ign: bool, first: bool, lv: usize, th: &Theme) -> (s: String)
    requires
        3 <= lv,
        lv + 3 <= usize::MAX,
    ensures
        s@ == runs_render(label_suffix(v as int, c as int, ign, first, lv as int, *th)),
{
    let mut runs: Vec<Run> = Vec::new();
    if !first {
        runs.push(crate::paint::glyph_run(" ", lv + 3, 0, 0));
    } else if ign {
        proof {
            reveal_strlit("----\u{20ac} ");
        }
        runs.push(crate::paint::glyph_run(" ", lv - 3, 0, 0));
        runs.push(crate::paint::label_run(String::from_str("----\u{20ac} "), th.empty, true));
    } else {
        runs.push(crate::paint::label_run(value_label_string(v, lv), if v >= c {
            th.bad
        } else {
            th.good
        }, true));
    }
    let s = render_runs(&runs);
    proof {
        assert(run_views(runs@) =~= label_suffix(v as int, c as int, ign, first, lv as int, *th));
    }
    s
}

/// Builds all rows of a labeled horizontal chart.  The caller fixes the
/// scale maximum `m` and marker cell `cl` of the inner chart, the label
/// field widths `mil` and `lv`, and the downscale factor `dsf` by which
/// shown indices step.
#[verifier::loop_isolation(false)]
pub fn hlabel_build(
    values: &Vec<u32>,
    ignored: &Vec<u32>,
    w: u32,
    h: u32,
    m: u32,
    cl: u32,
    c: u32,
    dsf: u32,
    mil: usize,
    lv: usize,
    th: &Theme,
) -> (lines: Vec<String>)
    requires
        1 <= m,
        forall|k: int| 0 <= k < values@.len() ==> values@[k] <= m,
        1 <= values@.len(),
        values@.len() <= h,
        3 <= lv,
        mil + lv + 8 <= w,
        cl as int <= w as int - (mil + lv + 5),
        1 <= dsf,
        (values@.len() - 1) * dsf + 1 <= u32::MAX,
    ensures
        ({
            let len = values@.len() as int;
            let factor = h as int / len;
            let iw = w as int - (mil + lv + 5);
            &&& lines@.len() == factor * len
            &&& lines@.len() <= h
            &&& 1 <= factor
            &&& forall|i: int|
                0 <= i < lines@.len() ==> lines@[i]@ == runs_render(
                    decorated_row(
                        hbar_runs(
                            values@[i / factor] as int,
                            ignored@.contains((i / factor) as u32),
                            iw,
                            m as int,
                            cl as int,
                            c as int,
                            *th,
                        ),
                        (i / factor) * dsf + 1,
                        values@[i / factor] as int,
                        c as int,
                        ignored@.contains((i / factor) as u32),
                        i % factor == 0,
                        mil as int,
                        lv as int,
                        *th,
                    ),
                )
        }),
{
    let len = values.len();
    let factor: usize = (h as usize) / len;
    let iw: u32 = w - (mil + lv + 5) as u32;
    proof {
        vstd::arithmetic::div_mod::lemma_div_by_self(len as int);
        vstd::arithmetic::div_mod::lemma_div_is_ordered(len as int, h as int, len as int);
        vstd::arithmetic::div_mod::lemma_fundamental_div_mod(h as int, len as int);
        vstd::arithmetic::div_mod::lemma_remainder_lower(h as int, len as int);
        assert((len as int) * (factor as int) == (factor as int) * (len as int))
            by (nonlinear_arith);
    }
    let mut lines: Vec<String> = Vec::new();
    let mut k: usize = 0;
    while k < len
        invariant
            k <= len,
            lines@.len() == factor * k,
            (factor * k) as int <= (factor * len) as int,
            forall|i: int|
                0 <= i < lines@.len() ==> lines@[i]@ == runs_render(
                    decorated_row(
                        hbar_runs(
                            values@[i / factor as int] as int,
                            ignored@.contains((i / factor as int) as u32),
                            iw as int,
                            m as int,
                            cl as int,
                            c as int,
                            *th,
                        ),
                        (i / factor as int) * dsf + 1,
                        values@[i / factor as int] as int,
                        c as int,
                        ignored@.contains((i / factor as int) as u32),
                        i % factor as int == 0,
                        mil as int,
                        lv as int,
                        *th,
                    ),
                ),
        decreases len - k,
    {
        proof {
            crate::bars::lemma_mul_le_mono(k as int + 1, len as int, factor as int);
            vstd::arithmetic::mul::lemma_mul_inequality(k as int, len as int - 1, dsf as int);
        }
        let ign = crate::downscale::contains_u32(ignored, k as u32);
        let v = values[k];
        let inner = hbar_row(v, ign, iw, m, cl, c, th);
        let idx1: u32 = ((k as u64) * (dsf as u64) + 1) as u32;
        let mut rep: usize = 0;
        while rep < factor
            invariant
                rep <= factor,
                k < len,
                lines@.len() == factor * k + rep,
                inner@ == runs_render(
                    hbar_runs(
                        values@[k as int] as int,
                        ignored@.contains(k as u32),
                        iw as int,
                        m as int,
                        cl as int,
                        c as int,
                        *th,
                    ),
                ),
                idx1 as int == k as int * dsf as int + 1,
                forall|i: int|
                    0 <= i < lines@.len() ==> lines@[i]@ == runs_render(
                        decorated_row(
                            hbar_runs(
                                values@[i / factor as int] as int,
                                ignored@.contains((i / factor as int) as u32),
                                iw as int,
                                m as int,
                                cl as int,
                                c as int,
                                *th,
                            ),
                            (i / factor as int) * dsf + 1,
                            values@[i / factor as int] as int,
                            c as int,
                            ignored@.contains((i / factor as int) as u32),
                            i % factor as int == 0,
                            mil as int,
                            lv as int,
                            *th,
                        ),
                    ),
            decreases factor - rep,
        {
            let first = rep == 0;
            let mut row = prefix_string(idx1, ign, first, mil, th);
            row.append(inner.as_str());
            row.append(suffix_string(v, c, ign, first, lv, th).as_str());
            proof {
                assert((k as int + 1) * factor as int == factor as int * k as int
                    + factor as int) by (nonlinear_arith);
                assert((factor as int) * (k as int) == (factor * k) as int) by (nonlinear_arith);
            }
            lines.push(row);
            proof {
                let i0 = (factor * k + rep) as int;
                vstd::arithmetic::div_mod::lemma_div_multiples_vanish_fancy(
                    k as int,
                    rep as int,
                    factor as int,
                );
                assert(factor as int * k as int + rep as int == i0);
                assert(i0 / factor as int == k as int);
                vstd::arithmetic::div_mod::lemma_fundamental_div_mod(i0, factor as int);
                assert(i0 % factor as int == rep as int);
                let pre = label_prefix(idx1 as int, ign, first, mil as int, *th);
                let mid = runs_render(
                    hbar_runs(
                        values@[k as int] as int,
                        ignored@.contains(k as u32),
                        iw as int,
                        m as int,
                        cl as int,
                        c as int,
                        *th,
                    ),
                );
                let suf = label_suffix(v as int, c as int, ign, first, lv as int, *th);
                let innerv = hbar_runs(
                    values@[k as int] as int,
                    ignored@.contains(k as u32),
                    iw as int,
                    m as int,
                    cl as int,
                    c as int,
                    *th,
                );
                crate::paint::lemma_runs_render_concat(pre, innerv);
                crate::paint::lemma_runs_render_concat(pre + innerv, suf);
                assert(decorated_row(
                    innerv,
                    idx1 as int,
                    v as int,
                    c as int,
                    ign,
                    first,
                    mil as int,
                    lv as int,
                    *th,
                ) =~= (pre + innerv) + suf);
                assert(row@ =~= runs_render((pre + innerv) + suf));
            }
            rep += 1;
        }
        proof {
            assert(factor * k + factor == factor * (k + 1)) by (nonlinear_arith);
        }
        k += 1;
    }
    lines
}

} // verus!
