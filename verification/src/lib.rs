//! Renders a numeric time series as a fixed-size terminal grid of colored
//! bars, with a configurable alert threshold, and tracks the payments that
//! feed it.
//!
//! The rendering pipeline has four stages: a downscaler that merges a long
//! series into at most N buckets, a layout engine that turns magnitudes into
//! whole cell counts on a shared scale, a cell painter that emits one styled
//! run per bar segment, and an optional label decorator for horizontal
//! charts.

pub mod bars;
pub mod crypto;
pub mod error;
pub mod downscale;
pub mod geometry;
pub mod interning;
pub mod labels;
pub mod laws;
pub mod paint;
pub mod payments;
pub mod payments_basic;
pub mod renderer;
pub mod style;
pub mod time;
pub mod textfmt;
pub mod tui_renderer;
pub mod types;
