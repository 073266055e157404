//! The semantic color roles of the charts, and the one place where text is
//! handed to crossterm to be wrapped in terminal escape sequences.

use crossterm::style::{Color, Stylize};
use vstd::prelude::*;

verus! {

/// Color code for an unstyled part of a run.
pub const TINT_NONE: u8 = 0;

/// Color code of plain label text (white).
pub const TINT_TEXT: u8 = 1;

/// Color code of a bar below the threshold (dark green).
pub const TINT_GOOD: u8 = 2;

/// Color code of a bar at or above the threshold (dark red).
pub const TINT_BAD: u8 = 3;

/// Color code of a bar with no data (dark grey).
pub const TINT_EMPTY: u8 = 4;

/// Color code of the threshold marker (yellow).
pub const TINT_CUTOUT: u8 = 5;

/// The colors of the semantic roles of a chart, one record per chart call,
/// so that themes can be swapped without touching the layout.
#[derive(Clone, Copy, PartialEq, Eq, Structural, Debug)]
pub struct Theme {
    pub good: u8,
    pub bad: u8,
    pub empty: u8,
    pub cutout: u8,
    pub text: u8,
}

/// The fixed theme the classic chart entry points use.
pub open spec fn standard_theme() -> Theme {
    Theme { good: TINT_GOOD, bad: TINT_BAD, empty: TINT_EMPTY, cutout: TINT_CUTOUT, text: TINT_TEXT }
}

impl Theme {
    /// The standard colors: green for good, red for bad, grey for missing
    /// data, yellow for the threshold marker, white for labels.
    pub fn standard() -> (t: Theme)
        ensures
            t == standard_theme(),
    {
        Theme {
            good: TINT_GOOD,
            bad: TINT_BAD,
            empty: TINT_EMPTY,
            cutout: TINT_CUTOUT,
            text: TINT_TEXT,
        }
    }
}

/// What the terminal is sent for one styled run: the glyphs of `s` wrapped
/// in the escape sequences that select foreground color `fg`, background
/// color `bg` and boldness, and reset them afterwards.  With `fg` and `bg`
/// zero and `bold` false it is `s` itself.
pub uninterp spec fn styled_text(s: Seq<char>, fg: int, bg: int, bold: bool) -> Seq<char>;

/// Relies on crossterm's `force_color_output` and the `Display` of
/// `StyledContent` (`PrintStyledContent::write_ansi`): color emission is
/// switched by a process-wide flag (seeded from the `NO_COLOR`
/// environment variable), so the flag is pinned on here before each
/// formatting, and the printed form is then a function of the content and
/// the chosen colors and attributes alone.  The charts therefore emit
/// their escape sequences whether or not `NO_COLOR` is set.
#[verifier::external_body]
pub(crate) fn paint(text: &str, fg: u8, bg: u8, bold: bool) -> (r: String)
    ensures
        r@ == styled_text(text@, fg as int, bg as int, bold),
{
    crossterm::style::force_color_output(true);
    let colors = [Color::White, Color::DarkGreen, Color::DarkRed, Color::DarkGrey, Color::Yellow];
    let mut s = text.stylize();
    if fg >= 1 && fg <= 5 {
        s = s.with(colors[(fg - 1) as usize]);
    }
    if bg >= 1 && bg <= 5 {
        s = s.on(colors[(bg - 1) as usize]);
    }
    if bold {
        s = s.bold();
    }
    s.to_string()
}

} // verus!
