use ultra_render::engine::culling::{CellRange, SpatialGrid};

fn range(min_cx: i32, min_cy: i32, max_cx: i32, max_cy: i32) -> CellRange {
    CellRange { min_cx, min_cy, max_cx, max_cy }
}

#[test]
fn empty_grid_finds_nothing() {
    let grid = SpatialGrid::new();
    assert!(grid.query(range(-5, -5, 5, 5)).is_empty());
}

#[test]
fn query_lists_ids_once_in_scan_order() {
    let mut grid = SpatialGrid::new();
    grid.insert(7, range(0, 0, 1, 1));
    grid.insert(3, range(1, 1, 2, 2));
    grid.insert(9, range(-3, -3, -2, -2));
    // Column 0 holds 7 only; column 1 adds 3 at (1, 1); column 2 repeats 3.
    assert_eq!(grid.query(range(0, 0, 2, 2)), vec![7, 3]);
    assert_eq!(grid.query(range(2, 2, 2, 2)), vec![3]);
    assert_eq!(grid.query(range(-3, -3, 0, 0)), vec![9, 7]);
    assert!(grid.query(range(10, 10, 12, 12)).is_empty());
}

#[test]
fn inverted_range_is_empty() {
    let mut grid = SpatialGrid::new();
    grid.insert(1, range(0, 0, 0, 0));
    grid.insert(2, range(3, 0, 0, 0));
    assert!(grid.query(range(1, 0, 0, 0)).is_empty());
    assert_eq!(grid.query(range(0, 0, 3, 0)), vec![1]);
}

#[test]
fn repeated_inserts_are_reported_once() {
    let mut grid = SpatialGrid::new();
    grid.insert(4, range(0, 0, 0, 0));
    grid.insert(4, range(0, 0, 0, 0));
    grid.insert(5, range(0, 0, 0, 0));
    assert_eq!(grid.query(range(0, 0, 0, 0)), vec![4, 5]);
}

#[test]
fn clear_empties_every_cell() {
    let mut grid = SpatialGrid::new();
    grid.insert(11, range(0, 0, 3, 3));
    grid.clear();
    assert!(grid.query(range(0, 0, 3, 3)).is_empty());
    grid.insert(12, range(2, 2, 2, 2));
    assert_eq!(grid.query(range(0, 0, 3, 3)), vec![12]);
}

#[test]
fn extreme_cells_stay_apart() {
    let mut grid = SpatialGrid::new();
    grid.insert(1, range(i32::MIN, i32::MAX, i32::MIN, i32::MAX));
    grid.insert(2, range(i32::MAX, i32::MIN, i32::MAX, i32::MIN));
    grid.insert(3, range(-1, -1, -1, -1));
    assert_eq!(grid.query(range(i32::MIN, i32::MAX, i32::MIN, i32::MAX)), vec![1]);
    assert_eq!(grid.query(range(i32::MAX, i32::MIN, i32::MAX, i32::MIN)), vec![2]);
    assert_eq!(grid.query(range(-1, -1, 0, 0)), vec![3]);
}
