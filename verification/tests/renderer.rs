//! The chart pipeline: downscaling, horizontal and vertical layout, the
//! threshold marker, labels, and the degenerate blank grids.

use crossterm::style::{Color, Stylize};
use track_payments::renderer::{tui, tui_};
use track_payments::tui_renderer::templates;

#[test]
pub fn tui_downscale_data() {
    let data = vec![1, 3, 5, 9, 10];
    assert_eq!(
        vec![4, 14, 10],
        tui::downscale_to_biggest_factor(&data, &vec![], 4).0
    );

    let data = vec![1, 3, 5, 0, 0, 7, 10, 0, 1];
    let ignored = vec![2, 3, 7];
    let expected = (vec![4, 0, 7, 10, 1], vec![1], 2);
    assert_eq!(expected, tui::downscale_to_biggest_factor(&data, &ignored, 5));
}

#[test]
pub fn tui_horizontal_bar_chart() {
    let data = vec![1, 3, 5, 9, 10, 13, 15];
    let graph = tui::bar_graph_horizontal(&data, 20, 10, 10, &vec![]);
    assert_eq!(graph.len(), 7);
    println!("{}", graph.join("\n"));
}

#[test]
pub fn tui_horizontal_bar_chart_label() {
    let data = vec![1, 3, 5, 9, 10, 13, 15];
    let graph = tui::bar_graph_horizontal_label(&data, 20, 10, 10, &vec![]);
    assert_eq!(graph.len(), 7);
    println!("{}", graph.join("\n"));
}

#[test]
pub fn tui__downscale_data() {
    let data = vec![1, 3, 5, 9, 10];
    assert_eq!(
        vec![4, 14, 10],
        tui_::downscale_to_biggest_factor(&data, &vec![], 4).values
    );

    let data = vec![1, 3, 5, 0, 0, 7, 10, 0, 1];
    let ignored = vec![2, 3, 7];
    let expected = tui_::Downscaled {
        values: vec![4, 0, 7, 10, 1],
        ignored: vec![1],
        factor: 2,
    };
    assert_eq!(expected, tui_::downscale_to_biggest_factor(&data, &ignored, 5));
}

#[test]
pub fn tui__horizontal_bar_chart() {
    let data = vec![1, 3, 5, 9, 10, 13, 15];
    let graph = tui_::bar_graph_horizontal(&data, 20, 10, 10, &vec![]);
    assert_eq!(graph.area().len(), 7);
    println!("\n{}", graph.area().join("\n"));
}

#[test]
pub fn tui__horizontal_bar_chart_label() {
    let data = vec![1, 3, 5, 9, 10, 13, 15];
    let graph = tui_::bar_graph_horizontal_label(&data, 20, 10, 10, &vec![]);
    assert_eq!(graph.area().len(), 7);
    println!("\n{}", graph.area().join("\n"));
}

#[test]
pub fn templates_downscale_data() {
    let data = vec![1, 3, 5, 9, 10];
    assert_eq!(
        vec![2, 7, 10],
        templates::downscale_to_biggest_factor(&data, &vec![], 4).0
    );

    let data = vec![1, 3, 5, 0, 0, 7, 10, 0, 1];
    let ignored = vec![2, 3, 7];
    let expected = (vec![2, 0, 3, 10, 1], vec![1]);
    assert_eq!(
        expected,
        templates::downscale_to_biggest_factor(&data, &ignored, 5)
    );
}

#[test]
fn downscale_empty_and_bound() {
    let (values, ignored, factor) = tui::downscale_to_biggest_factor(&vec![], &vec![], 4);
    assert_eq!(values, Vec::<u32>::new());
    assert_eq!(ignored, Vec::<u32>::new());
    assert_eq!(factor, 1);

    let data: Vec<u32> = (0..100).collect();
    let (values, _, _) = tui::downscale_to_biggest_factor(&data, &vec![], 7);
    assert!(values.len() <= 7);
}

#[test]
fn downscale_idempotent() {
    let data = vec![1, 3, 5, 9, 10, 2, 8];
    let ignored = vec![1, 6];
    let (v1, i1, _f1) = tui::downscale_to_biggest_factor(&data, &ignored, 3);
    let (v2, i2, f2) = tui::downscale_to_biggest_factor(&v1, &i1, 3);
    assert_eq!(v1, v2);
    assert_eq!(i1, i2);
    assert_eq!(f2, 1);
}

#[test]
fn horizontal_rows_exact() {
    // Scale maximum 15 (threshold 10 is below it), marker cell
    // floor(10 * 20 / 15) = 13.
    let data = vec![1, 3, 5, 9, 10, 13, 15];
    let graph = tui::bar_graph_horizontal(&data, 20, 10, 10, &vec![]);

    // The bar for 15 fills floor(15 * 20 / 15) = 20 cells, all bad-colored,
    // with the marker inside the fill.
    let bad_row = format!(
        "{}{}{}{}",
        " ".repeat(13).on(Color::DarkRed),
        "\u{254f}".with(Color::Yellow).on(Color::DarkRed),
        " ".repeat(6).on(Color::DarkRed),
        ""
    );
    assert_eq!(graph[6], bad_row);

    // The bar for 9 fills floor(9 * 20 / 15) = 12 cells, good-colored, and
    // the marker stands in the blank remainder without a background.
    let good_row = format!(
        "{}{}{}{}",
        " ".repeat(12).on(Color::DarkGreen),
        " ".repeat(1),
        "\u{254f}".with(Color::Yellow),
        " ".repeat(6)
    );
    assert_eq!(graph[3], good_row);

    assert_ne!(graph[6], graph[5]);
}

#[test]
fn downscaled_series_marks_bad_buckets() {
    // 31 entries merge into 16 buckets of 2; the threshold becomes
    // 2 * 1000 = 2000 and the largest bucket holds 2787.
    let mut data = vec![0u32; 31];
    data[4] = 2787;
    data[10] = 752;
    data[11] = 707;
    let (values, _, factor) = tui::downscale_to_biggest_factor(&data, &vec![], 20);
    assert_eq!(factor, 2);
    assert!(values.len() <= 20);
    assert_eq!(values[2], 2787);

    let graph = tui::bar_graph_horizontal(&data, 50, 20, 1000, &vec![]);
    assert_eq!(graph.len(), 16);
    // Scale maximum 2787; the 2787 bucket fills the whole width and is
    // bad-colored; the marker cell is floor(2000 * 50 / 2787) = 35.
    let bad_row = format!(
        "{}{}{}{}",
        " ".repeat(35).on(Color::DarkRed),
        "\u{254f}".with(Color::Yellow).on(Color::DarkRed),
        " ".repeat(14).on(Color::DarkRed),
        ""
    );
    assert_eq!(graph[2], bad_row);
}

#[test]
fn blank_grid_on_empty_input() {
    let area = templates::bar_graph_horizontal(&vec![], 5, 3, 10, &vec![]);
    assert_eq!(area.width, 5);
    assert_eq!(area.height, 3);
    assert_eq!(area.area, vec!["     ", "     ", "     "]);

    let rows = tui::bar_graph_horizontal(&vec![1, 2], 0, 3, 10, &vec![]);
    assert_eq!(rows, vec!["", "", ""]);

    let varea = templates::bar_graph_vertical(&vec![], 4, 2, 1, &vec![]);
    assert_eq!(varea.area, vec!["    ", "    "]);
}

#[test]
fn ignored_bars_render_blank() {
    let graph = tui::bar_graph_horizontal(&vec![7, 7], 4, 2, 9, &vec![1]);
    let blank = " ".repeat(4).on(Color::DarkGrey).to_string();
    assert_eq!(graph[1], blank);
    assert_ne!(graph[0], graph[1]);
}

#[test]
fn label_fallback_matches_bare_chart() {
    // mil = 1 and lv = 4 need 13 columns; at 8 the labels are dropped and
    // the output is exactly the bare chart at full width.
    let data = vec![1, 3, 5];
    let labeled = tui::bar_graph_horizontal_label(&data, 8, 3, 2, &vec![]);
    let bare = tui::bar_graph_horizontal(&data, 8, 3, 2, &vec![]);
    assert_eq!(labeled, bare);
}

#[test]
fn labeled_rows_exact() {
    // Fields: index 1 digit, value field 4 wide; bars get 20 - 10 = 10
    // cells on a scale of 15, marker cell floor(10 * 10 / 15) = 6.
    let data = vec![5, 15];
    let graph = tui::bar_graph_horizontal_label(&data, 20, 2, 10, &vec![]);
    assert_eq!(graph.len(), 2);
    let row0 = format!(
        "{}{}{}{}{}{}",
        " 1 ".with(Color::White).bold(),
        " ".repeat(3).on(Color::DarkGreen),
        " ".repeat(3),
        "\u{254f}".with(Color::Yellow),
        " ".repeat(3),
        " 0.05\u{20ac} ".with(Color::DarkGreen).bold()
    );
    assert_eq!(graph[0], row0);
    let row1 = format!(
        "{}{}{}{}{}",
        " 2 ".with(Color::White).bold(),
        " ".repeat(6).on(Color::DarkRed),
        "\u{254f}".with(Color::Yellow).on(Color::DarkRed),
        " ".repeat(3).on(Color::DarkRed),
        " 0.15\u{20ac} ".with(Color::DarkRed).bold()
    );
    assert_eq!(graph[1], row1);
}

#[test]
fn vertical_chart_exact() {
    // Two bars on a scale of 2, two columns each; the threshold row for
    // cutout 1 is ceil(1 * 2 / 2) = 1, the top row here.
    let area = templates::bar_graph_vertical(&vec![1, 2], 4, 2, 1, &vec![]);
    assert_eq!(area.width, 4);
    assert_eq!(area.height, 2);
    let top = format!(
        "{}{}",
        "\u{254d}\u{254d}".with(Color::Yellow).on(Color::DarkRed),
        "\u{254d}\u{254d}".with(Color::Yellow).on(Color::DarkRed)
    );
    let bottom = format!(
        "{}{}",
        "  ".on(Color::DarkRed),
        "  ".on(Color::DarkRed)
    );
    assert_eq!(area.area[0], top);
    assert_eq!(area.area[1], bottom);
}

#[test]
fn simple_rectangle_repeats_glyph() {
    let area = templates::simple_rectangle("x", 3, 2);
    assert_eq!(area.area, vec!["xxx", "xxx"]);
    assert_eq!(area.width, 3);
    assert_eq!(area.height, 2);
}
