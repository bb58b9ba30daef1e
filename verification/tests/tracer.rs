use noname_rl::algorithms::bresenham_line;
use noname_rl::components::{GridPos, IPos, MapSize};

fn pos(x: i32, y: i32) -> IPos {
    IPos { x, y }
}

fn size(x: u32, y: u32) -> MapSize {
    MapSize { x, y }
}

#[test]
fn trace_self_is_single_cell() {
    let r = bresenham_line(pos(3, 4), pos(3, 4), &size(10, 10));
    assert_eq!(r.len(), 1);
    assert_eq!((r[0].x, r[0].y), (3, 4));
}

#[test]
fn trace_horizontal_six_cells() {
    let r = bresenham_line(pos(0, 0), pos(5, 0), &size(320, 320));
    let expect: Vec<(u32, u32)> = vec![(0, 0), (1, 0), (2, 0), (3, 0), (4, 0), (5, 0)];
    let got: Vec<(u32, u32)> = r.iter().map(|g| (g.x, g.y)).collect();
    assert_eq!(got, expect);
}

#[test]
fn trace_starts_and_ends_at_endpoints() {
    let r = bresenham_line(pos(2, 3), pos(9, 7), &size(20, 20));
    assert_eq!((r[0].x, r[0].y), (2, 3));
    assert_eq!((r[r.len() - 1].x, r[r.len() - 1].y), (9, 7));
}

#[test]
fn trace_reversed_diagonalish_starts_at_start() {
    // generation begins at the low end, but both axes differ, so the
    // sequence is reversed back into start-to-end order
    let r = bresenham_line(pos(5, 5), pos(1, 2), &size(20, 20));
    assert_eq!((r[0].x, r[0].y), (5, 5));
    assert_eq!((r[r.len() - 1].x, r[r.len() - 1].y), (1, 2));
}

#[test]
fn trace_consecutive_cells_are_adjacent() {
    let r = bresenham_line(pos(1, 1), pos(17, 6), &size(40, 40));
    for w in r.windows(2) {
        let dx = (w[1].x as i64 - w[0].x as i64).abs();
        let dy = (w[1].y as i64 - w[0].y as i64).abs();
        assert!(dx <= 1 && dy <= 1);
    }
}

#[test]
fn trace_steep_line() {
    let r = bresenham_line(pos(2, 1), pos(4, 9), &size(20, 20));
    assert_eq!((r[0].x, r[0].y), (2, 1));
    assert_eq!((r[r.len() - 1].x, r[r.len() - 1].y), (4, 9));
    assert_eq!(r.len(), 9);
}

#[test]
fn trace_drops_out_of_bounds_cells() {
    // the far half of the segment leaves a 5-wide map and is dropped, not
    // clamped
    let r = bresenham_line(pos(0, 0), pos(8, 0), &size(5, 5));
    let got: Vec<(u32, u32)> = r.iter().map(|g| (g.x, g.y)).collect();
    assert_eq!(got, vec![(0, 0), (1, 0), (2, 0), (3, 0), (4, 0)]);
}

#[test]
fn trace_negative_start_cells_dropped() {
    let r = bresenham_line(pos(-3, 0), pos(2, 0), &size(10, 10));
    let got: Vec<(u32, u32)> = r.iter().map(|g| (g.x, g.y)).collect();
    assert_eq!(got, vec![(0, 0), (1, 0), (2, 0)]);
}

#[test]
fn trace_axis_aligned_descending_is_unreversed() {
    // the reversal test requires both axes to mismatch, so an axis-aligned
    // line whose generation began at the far end stays far-end first
    let r = bresenham_line(pos(5, 0), pos(0, 0), &size(320, 320));
    let got: Vec<(u32, u32)> = r.iter().map(|g| (g.x, g.y)).collect();
    assert_eq!(got, vec![(0, 0), (1, 0), (2, 0), (3, 0), (4, 0), (5, 0)]);
}

fn cell_set(v: &[GridPos]) -> std::collections::BTreeSet<(u32, u32)> {
    v.iter().map(|g| (g.x, g.y)).collect()
}

#[test]
fn trace_cells_direction_independent_as_set() {
    let a = bresenham_line(pos(2, 3), pos(11, 8), &size(40, 40));
    let b = bresenham_line(pos(11, 8), pos(2, 3), &size(40, 40));
    assert_eq!(cell_set(&a), cell_set(&b));
}
