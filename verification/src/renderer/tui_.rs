//! The earlier, superseded form of the horizontal chart.  It keeps its
//! own result type, which carries the scaled threshold and the row
//! thickness beside the rows; the rows themselves are drawn by the same
//! painter as the current chart.  Degenerate input yields an empty graph
//! here, not a blank rectangle.

use vstd::prelude::*;

verus! {

use crate::downscale::{downscale, ds_factor, ds_ignored, ds_len, ds_values, Aggregation};
use crate::paint::runs_render;
use crate::style::standard_theme;
use crate::renderer::tui::{scaled_cutout, tui_hchart_rows, tui_hlabel_rows};

pub use crate::downscale::Downscaled;

/// A rendered horizontal chart with the figures it was drawn from: the
/// threshold on the bucket scale and the number of rows each bar spans.
#[derive(Debug)]
pub struct Graph {
    pub area: Vec<String>,
    pub cutout: u32,
    pub factor: u32,
}

impl Graph {
    /// The styled rows.
    pub fn area(&self) -> (r: &Vec<String>)
        ensures
            r == self.area,
    {
        &self.area
    }

    /// The threshold on the bucket scale.
    pub fn cutout(&self) -> (r: &u32)
        ensures
            r == self.cutout,
    {
        &self.cutout
    }

    /// How many rows each bar spans.
    pub fn factor(&self) -> (r: &u32)
        ensures
            r == self.factor,
    {
        &self.factor
    }
}

/// One downscaling pass, summing buckets.
pub fn downscale_to_biggest_factor(values: &Vec<u32>, ignored: &Vec<u32>, max_length: u32) -> (r:
    Downscaled)
    requires
        1 <= max_length,
        values@.len() <= u32::MAX,
    ensures
        r.factor as int == ds_factor(values@.len() as int, max_length as int),
        r.values@ == ds_values(
            values@,
            ignored@,
            r.factor as int,
            ds_len(values@.len() as int, r.factor as int),
            Aggregation::Sum,
        ),
        r.ignored@ == ds_ignored(
            values@,
            ignored@,
            r.factor as int,
            ds_len(values@.len() as int, r.factor as int),
        ),
        r.values@.len() <= max_length,
{
    downscale(values, ignored, max_length, Aggregation::Sum)
}

/// The bucket count the chart actually draws: the series length, downscaled
/// to the height when it is longer.
pub open spec fn drawn_len(len: int, h: int) -> int {
    if len <= h {
        len
    } else {
        ds_len(len, ds_factor(len, h))
    }
}

/// The factor by which the chart downscaled: 1 for a short series.
pub open spec fn drawn_factor(len: int, h: int) -> int {
    if len <= h {
        1
    } else {
        ds_factor(len, h)
    }
}

fn drawn_figures(values: &Vec<u32>, max_height: u32, cutout: u32) -> (r: (u32, u32))
    requires
        1 <= values@.len() <= u32::MAX,
        1 <= max_height,
    ensures
        r.0 as int == scaled_cutout(
            cutout as int,
            drawn_factor(values@.len() as int, max_height as int),
        ),
        r.1 as int == max_height as int / drawn_len(values@.len() as int, max_height as int),
{
    let len = values.len();
    let h = max_height as usize;
    if len <= h {
        proof {
            vstd::arithmetic::mul::lemma_mul_basics(cutout as int);
        }
        (cutout, max_height / (len as u32))
    } else {
        let f: u64 = ((len as u64) - 1) / (max_height as u64) + 1;
        let len2: u64 = ((len as u64) - 1) / f + 1;
        proof {
            crate::downscale::lemma_factor_bounds(len as int, max_height as int);
            crate::downscale::lemma_ds_len_le_max(len as int, max_height as int);
            vstd::arithmetic::mul::lemma_mul_upper_bound(
                cutout as int,
                u32::MAX as int,
                f as int,
                u32::MAX as int,
            );
        }
        let c64 = (cutout as u64) * f;
        let c2: u32 = if c64 > u32::MAX as u64 {
            u32::MAX
        } else {
            c64 as u32
        };
        (c2, max_height / (len2 as u32))
    }
}

/// Renders the horizontal bar chart, keeping the scaled threshold and the
/// bar thickness beside the rows.  Degenerate input gives an empty graph.
pub fn bar_graph_horizontal(
    values: &Vec<u32>,
    max_width: u32,
    max_height: u32,
    cutout: u32,
    ignored: &Vec<u32>,
) -> (r: Graph)
    requires
        values@.len() <= u32::MAX,
    ensures
        (values@.len() == 0 || max_width == 0 || max_height == 0) ==> (r.area@.len() == 0
            && r.cutout == 0 && r.factor == 0),
        !(values@.len() == 0 || max_width == 0 || max_height == 0) ==> ({
            let rows = tui_hchart_rows(
                values@,
                ignored@,
                max_width as int,
                max_height as int,
                cutout as int,
                standard_theme(),
            );
            &&& r.area@.len() == rows.len()
            &&& forall|i: int| 0 <= i < rows.len() ==> r.area@[i]@ == runs_render(rows[i])
            &&& r.cutout as int == scaled_cutout(
                cutout as int,
                drawn_factor(values@.len() as int, max_height as int),
            )
            &&& r.factor as int == max_height as int / drawn_len(
                values@.len() as int,
                max_height as int,
            )
        }),
{
    if values.len() == 0 || max_width == 0 || max_height == 0 {
        return Graph { area: Vec::new(), cutout: 0, factor: 0 };
    }
    let (c2, factor) = drawn_figures(values, max_height, cutout);
    let area = crate::renderer::tui::bar_graph_horizontal(
        values,
        max_width,
        max_height,
        cutout,
        ignored,
    );
    Graph { area, cutout: c2, factor }
}

/// Renders the labeled horizontal bar chart in the same dressed form.
pub fn bar_graph_horizontal_label(
    values: &Vec<u32>,
    max_width: u32,
    max_height: u32,
    cutout: u32,
    ignored: &Vec<u32>,
) -> (r: Graph)
    requires
        values@.len() <= u32::MAX,
    ensures
        (values@.len() == 0 || max_width == 0 || max_height == 0) ==> (r.area@.len() == 0
            && r.cutout == 0 && r.factor == 0),
        !(values@.len() == 0 || max_width == 0 || max_height == 0) ==> ({
            let rows = tui_hlabel_rows(
                values@,
                ignored@,
                max_width as int,
                max_height as int,
                cutout as int,
                standard_theme(),
            );
            &&& r.area@.len() == rows.len()
            &&& forall|i: int| 0 <= i < rows.len() ==> r.area@[i]@ == runs_render(rows[i])
            &&& r.cutout as int == scaled_cutout(
                cutout as int,
                drawn_factor(values@.len() as int, max_height as int),
            )
            &&& r.factor as int == max_height as int / drawn_len(
                values@.len() as int,
                max_height as int,
            )
        }),
{
    if values.len() == 0 || max_width == 0 || max_height == 0 {
        return Graph { area: Vec::new(), cutout: 0, factor: 0 };
    }
    let (c2, factor) = drawn_figures(values, max_height, cutout);
    let area = crate::renderer::tui::bar_graph_horizontal_label(
        values,
        max_width,
        max_height,
        cutout,
        ignored,
    );
    Graph { area, cutout: c2, factor }
}

} // verus!
