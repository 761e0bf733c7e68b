use sparse_grid::grid::Grid;

#[test]
fn negative_grid() {
    let mut grid = Grid::new();

    let mut x: isize = -10;
    while x <= 10 {
        let mut y: isize = -10;
        while y <= 10 {
            grid.set(x, y, x + y);
            y += 1;
        }
        x += 1;
    }

    let mut x: isize = grid.min_x();
    while x <= grid.max_x() {
        let mut y: isize = grid.min_y();
        while y <= grid.max_y() {
            assert_eq!(*grid.get(x, y).unwrap(), x + y);
            y += 1;
        }
        x += 1;
    }
}

#[test]
fn block_writes_fill_exact_bounds() {
    let mut grid = Grid::new();
    let mut x: isize = -10;
    while x <= 10 {
        let mut y: isize = -10;
        while y <= 10 {
            grid.set(x, y, x + y);
            y += 1;
        }
        x += 1;
    }
    assert_eq!(grid.min_x(), -10);
    assert_eq!(grid.max_x(), 10);
    assert_eq!(grid.min_y(), -10);
    assert_eq!(grid.max_y(), 10);
    // Every one of the 441 cells inside the box reads back its write.
    let mut count: usize = 0;
    let mut x: isize = grid.min_x();
    while x <= grid.max_x() {
        let mut y: isize = grid.min_y();
        while y <= grid.max_y() {
            assert_eq!(*grid.get(x, y).unwrap(), x + y);
            count += 1;
            y += 1;
        }
        x += 1;
    }
    assert_eq!(count, 441);
}

#[test]
fn fresh_grid_reports_origin() {
    let grid: Grid<u8> = Grid::new();
    assert_eq!(grid.min_x(), 0);
    assert_eq!(grid.max_x(), 0);
    assert_eq!(grid.min_y(), 0);
    assert_eq!(grid.max_y(), 0);
    // The degenerate box does not mean (0, 0) holds anything.
    assert_eq!(grid.get(0, 0), None);
}

#[test]
fn default_grid_matches_new() {
    let grid: Grid<u8> = Grid::default();
    assert_eq!(grid.min_x(), 0);
    assert_eq!(grid.max_x(), 0);
    assert_eq!(grid.min_y(), 0);
    assert_eq!(grid.max_y(), 0);
    assert_eq!(grid.get(0, 0), None);
}

#[test]
fn bounds_widen_and_never_shrink() {
    let mut grid: Grid<i32> = Grid::new();
    grid.set(3, -2, 1);
    assert_eq!(grid.min_x(), 0);
    assert_eq!(grid.max_x(), 3);
    assert_eq!(grid.min_y(), -2);
    assert_eq!(grid.max_y(), 0);
    grid.set(-1, 5, 2);
    assert_eq!(grid.min_x(), -1);
    assert_eq!(grid.max_x(), 3);
    assert_eq!(grid.min_y(), -2);
    assert_eq!(grid.max_y(), 5);
    // A write inside the box changes nothing.
    grid.set(0, 0, 3);
    assert_eq!(grid.min_x(), -1);
    assert_eq!(grid.max_x(), 3);
    assert_eq!(grid.min_y(), -2);
    assert_eq!(grid.max_y(), 5);
}

#[test]
fn columns_are_independent() {
    let mut grid: Grid<i32> = Grid::new();
    grid.set(1, 0, 10);
    grid.set(-1, 0, 20);
    // Overwriting column 1 leaves column -1 untouched.
    grid.set(1, 0, 30);
    grid.set(1, 9, 40);
    assert_eq!(grid.get(-1, 0), Some(&20));
    assert_eq!(grid.get(1, 0), Some(&30));
    assert_eq!(grid.get(1, 9), Some(&40));
    assert_eq!(grid.get(-1, 9), None);
}

#[test]
fn reads_of_untouched_columns_are_absent() {
    let mut grid: Grid<i32> = Grid::new();
    grid.set(2, 3, 7);
    // Columns 0 and 1 became reachable by the growth to x = 2 but were
    // never written: they hold nothing.
    assert_eq!(grid.get(0, 0), None);
    assert_eq!(grid.get(1, 3), None);
    // The written column is absent at other y values.
    assert_eq!(grid.get(2, 0), None);
    assert_eq!(grid.get(2, 3), Some(&7));
}

#[test]
fn grid_get_mut_updates_value() {
    let mut grid: Grid<i32> = Grid::new();
    grid.set(2, 3, 7);
    if let Some(v) = grid.get_mut(2, 3) {
        *v = 9;
    } else {
        panic!("cell written at (2, 3) must be reachable");
    }
    assert_eq!(grid.get(2, 3), Some(&9));
}

#[test]
fn grid_get_mut_absent_cells() {
    let mut grid: Grid<i32> = Grid::new();
    grid.set(2, 3, 7);
    // Absent column, absent cell in a present column, and coordinates
    // beyond the grown range: no handle, and no column is created.
    assert!(grid.get_mut(0, 0).is_none());
    assert!(grid.get_mut(2, 2).is_none());
    assert!(grid.get_mut(5, 5).is_none());
    assert!(grid.get_mut(-1, 3).is_none());
    assert_eq!(grid.get(2, 3), Some(&7));
    assert_eq!(grid.min_x(), 0);
    assert_eq!(grid.max_x(), 2);
    assert_eq!(grid.min_y(), 0);
    assert_eq!(grid.max_y(), 3);
}
