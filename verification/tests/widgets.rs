use paneview::keys::KeyTracker;
use paneview::rect::Rect;
use paneview::widgets::{
    arrow_cluster, centered_key_text, chart_height, draw_gap, key, key_row_width, memory_grid_rows, series_chart_rows,
    split_columns,
};

#[test]
fn split_columns_uses_percentages() {
    let [a, b, c] = split_columns(Rect::new(0, 0, 100, 10), 28, 36);
    assert_eq!(a, Rect::new(0, 0, 28, 10));
    assert_eq!(b, Rect::new(28, 0, 36, 10));
    assert_eq!(c, Rect::new(64, 0, 36, 10));
}

#[test]
fn chart_height_is_capped() {
    let area = Rect::new(0, 0, 10, 20);
    assert_eq!(chart_height(area, 2, 5), 5);
    assert_eq!(chart_height(area, 17, 5), 3);
    assert_eq!(chart_height(area, 30, 5), 0);
}

#[test]
fn gap_stops_before_bottom() {
    let mut y: u16 = 3;
    draw_gap(&mut y, 5);
    assert_eq!(y, 4);
    draw_gap(&mut y, 5);
    assert_eq!(y, 4);
}

#[test]
fn key_caps_are_centred() {
    assert_eq!(centered_key_text("A", 7), "   A   ");
    assert_eq!(centered_key_text("UP", 5), " UP  ");
    assert_eq!(centered_key_text("SHIFT", 4), " SH~");
}

#[test]
fn key_row_width_counts_gaps() {
    let row = [key("CTRL", 6), key("FN", 4), key("ALT", 5)];
    assert_eq!(key_row_width(2, &row), 2 + 6 + 4 + 5 + 2);
    assert_eq!(key_row_width(3, &[]), 3);
    assert_eq!(key_row_width(u16::MAX, &row), u16::MAX);
}

#[test]
fn arrow_cluster_sits_bottom_right() {
    let keys = arrow_cluster(Rect::new(0, 0, 80, 7));
    assert_eq!(keys.len(), 4);
    assert_eq!(keys[0], (Rect::new(69, 5, 5, 1), "UP"));
    assert_eq!(keys[1], (Rect::new(63, 6, 5, 1), "LEFT"));
    assert_eq!(keys[3], (Rect::new(75, 6, 5, 1), "RIGHT"));
    assert_eq!(arrow_cluster(Rect::new(0, 0, 80, 6)).len(), 1);
    assert!(arrow_cluster(Rect::new(0, 0, 80, 5)).is_empty());
}

#[test]
fn series_chart_scales_to_the_largest_sample() {
    let rows = series_chart_rows(&[1, 2, 4], 4, 2);
    assert_eq!(rows, vec!["   #".to_string(), "  ##".to_string()]);
    let empty = series_chart_rows(&[], 3, 1);
    assert_eq!(empty, vec!["   ".to_string()]);
}

#[test]
fn memory_grid_fills_row_by_row() {
    let rows = memory_grid_rows(4, 2, 5);
    assert_eq!(rows, vec!["####".to_string(), "#...".to_string()]);
}

#[test]
fn key_tracker_expires_keys() {
    let mut keys = KeyTracker::new();
    keys.set("A", 5);
    keys.set("B", 9);
    assert!(keys.contains("A"));
    keys.retain_after(5);
    assert!(!keys.contains("A"));
    assert!(keys.contains("B"));
    keys.remove("B");
    assert!(!keys.contains("B"));
}
