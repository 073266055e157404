//! The cell painter: a chart row is a short list of runs, each a stretch
//! of glyphs under one styling, and the painter turns such a list into the
//! one string that is sent to the terminal.

use vstd::prelude::*;

verus! {

use crate::style::{paint, styled_text};
use crate::textfmt::repeat_seq;
use vstd::string::StringExecFns;

/// One run of a chart row: `text` are the visible glyphs, `fg` and `bg`
/// the color codes of [`crate::style`], zero meaning unset.
pub struct Run {
    pub text: String,
    pub fg: u8,
    pub bg: u8,
    pub bold: bool,
}

/// The mathematical form of a run.
pub ghost struct RunV {
    pub text: Seq<char>,
    pub fg: int,
    pub bg: int,
    pub bold: bool,
}

impl View for Run {
    type V = RunV;

    open spec fn view(&self) -> RunV {
        RunV { text: self.text@, fg: self.fg as int, bg: self.bg as int, bold: self.bold }
    }
}

/// The views of a list of runs.
pub open spec fn run_views(rs: Seq<Run>) -> Seq<RunV> {
    rs.map_values(|r: Run| r@)
}

/// What one run sends to the terminal: its glyphs, wrapped in escape
/// sequences when any styling is set.
pub open spec fn run_render(r: RunV) -> Seq<char> {
    if r.fg == 0 && r.bg == 0 && !r.bold {
        r.text
    } else {
        styled_text(r.text, r.fg, r.bg, r.bold)
    }
}

/// What a whole row of runs sends to the terminal.
pub open spec fn runs_render(rs: Seq<RunV>) -> Seq<char>
    decreases rs.len(),
{
    if rs.len() == 0 {
        Seq::empty()
    } else {
        runs_render(rs.drop_last()) + run_render(rs.last())
    }
}

/// The visible width of a row of runs: styling takes no cells, so it is
/// the glyph count alone.
pub open spec fn runs_cells(rs: Seq<RunV>) -> int
    decreases rs.len(),
{
    if rs.len() == 0 {
        0
    } else {
        runs_cells(rs.drop_last()) + rs.last().text.len()
    }
}

/// A single-run row renders as that run alone.
pub proof fn lemma_runs_render1(rs: Seq<RunV>)
    requires
        rs.len() == 1,
    ensures
        runs_render(rs) == run_render(rs[0]),
{
    assert(rs.drop_last() =~= Seq::<RunV>::empty());
    assert(runs_render(Seq::<RunV>::empty()) == Seq::<char>::empty());
    assert(runs_render(rs) == runs_render(rs.drop_last()) + run_render(rs.last()));
    assert(Seq::<char>::empty() + run_render(rs[0]) =~= run_render(rs[0]));
}

/// Rendering distributes over concatenation of rows of runs.
pub proof fn lemma_runs_render_concat(a: Seq<RunV>, b: Seq<RunV>)
    ensures
        runs_render(a + b) == runs_render(a) + runs_render(b),
    decreases b.len(),
{
    if b.len() == 0 {
        assert(a + b =~= a);
        assert(runs_render(b) == Seq::<char>::empty());
        assert(runs_render(a) + Seq::<char>::empty() =~= runs_render(a));
    } else {
        lemma_runs_render_concat(a, b.drop_last());
        assert((a + b).drop_last() =~= a + b.drop_last());
        assert((a + b).last() == b.last());
        assert(runs_render(a + b) == runs_render((a + b).drop_last()) + run_render((a + b).last()));
        assert(runs_render(b) == runs_render(b.drop_last()) + run_render(b.last()));
        assert(runs_render(a) + (runs_render(b.drop_last()) + run_render(b.last())) =~= (
        runs_render(a) + runs_render(b.drop_last())) + run_render(b.last()));
    }
}

/// Visible width distributes over concatenation of rows of runs.
pub proof fn lemma_runs_cells_concat(a: Seq<RunV>, b: Seq<RunV>)
    ensures
        runs_cells(a + b) == runs_cells(a) + runs_cells(b),
    decreases b.len(),
{
    if b.len() == 0 {
        assert(a + b =~= a);
    } else {
        lemma_runs_cells_concat(a, b.drop_last());
        assert((a + b).drop_last() =~= a + b.drop_last());
        assert((a + b).last() == b.last());
        assert(runs_cells(a + b) == runs_cells((a + b).drop_last()) + (a + b).last().text.len());
        assert(runs_cells(b) == runs_cells(b.drop_last()) + b.last().text.len());
    }
}

fn render_run(r: &Run) -> (s: String)
    ensures
        s@ == run_render(r@),
{
    if r.fg == 0 && r.bg == 0 && !r.bold {
        r.text.clone()
    } else {
        paint(r.text.as_str(), r.fg, r.bg, r.bold)
    }
}

/// Renders a row of runs into the one string sent to the terminal.
pub fn render_runs(rs: &Vec<Run>) -> (s: String)
    ensures
        s@ == runs_render(run_views(rs@)),
{
    let mut s = String::new();
    let mut i: usize = 0;
    while i < rs.len()
        invariant
            i <= rs@.len(),
            s@ == runs_render(run_views(rs@).take(i as int)),
        decreases rs@.len() - i,
    {
        let piece = render_run(&rs[i]);
        s.append(piece.as_str());
        proof {
            let vs = run_views(rs@);
            assert(vs.take(i + 1).drop_last() =~= vs.take(i as int));
            assert(vs.take(i + 1).last() == rs@[i as int]@);
        }
        i += 1;
    }
    proof {
        assert(run_views(rs@).take(rs@.len() as int) =~= run_views(rs@));
    }
    s
}

/// A run of `n` copies of the single glyph `piece` under the given colors.
pub fn glyph_run(piece: &str, n: usize, fg: u8, bg: u8) -> (r: Run)
    ensures
        r@ == (RunV { text: repeat_seq(piece@, n as int), fg: fg as int, bg: bg as int, bold: false }),
{
    Run { text: crate::textfmt::repeat_str(piece, n), fg, bg, bold: false }
}

/// A run holding already-built text under the given colors, in bold.
pub fn label_run(text: String, fg: u8, bold: bool) -> (r: Run)
    ensures
        r@ == (RunV { text: text@, fg: fg as int, bg: 0, bold }),
{
    Run { text, fg, bg: 0, bold }
}

} // verus!
