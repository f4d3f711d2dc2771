use snake_agent::bfs::is_reachable;
use snake_agent::grid::Cell;

fn cell(x: i32, y: i32) -> Cell {
    Cell { x, y }
}

#[test]
fn same_cell_is_reachable() {
    let none: Vec<Cell> = Vec::new();
    assert!(is_reachable(cell(2, 3), cell(2, 3), &none, 10, 10));
    assert!(is_reachable(cell(0, 0), cell(0, 0), &none, 1, 1));
    assert!(is_reachable(cell(9, 9), cell(9, 9), &none, 10, 10));
}

#[test]
fn blocked_start_reaches_nothing() {
    let obstacles = vec![cell(2, 3)];
    assert!(!is_reachable(cell(2, 3), cell(4, 4), &obstacles, 10, 10));
    // even itself
    assert!(!is_reachable(cell(2, 3), cell(2, 3), &obstacles, 10, 10));
}

#[test]
fn out_of_bounds_start_reaches_nothing() {
    let none: Vec<Cell> = Vec::new();
    assert!(!is_reachable(cell(-1, 0), cell(0, 0), &none, 5, 5));
    assert!(!is_reachable(cell(0, -1), cell(0, 0), &none, 5, 5));
    assert!(!is_reachable(cell(5, 0), cell(0, 0), &none, 5, 5));
    assert!(!is_reachable(cell(0, 5), cell(0, 0), &none, 5, 5));
    let obstacles = vec![cell(1, 1), cell(2, 2)];
    assert!(!is_reachable(cell(-3, 7), cell(2, 2), &obstacles, 5, 5));
}

#[test]
fn empty_grid_is_connected() {
    let none: Vec<Cell> = Vec::new();
    assert!(is_reachable(cell(0, 0), cell(4, 4), &none, 5, 5));
}

#[test]
fn surrounded_target_is_unreachable() {
    // all four sides of (4, 4); two of them lie off the grid anyway
    let obstacles = vec![cell(3, 4), cell(4, 3), cell(5, 4), cell(4, 5)];
    assert!(!is_reachable(cell(0, 0), cell(4, 4), &obstacles, 5, 5));
}

#[test]
fn wall_blocks_until_it_has_a_gap() {
    // a full vertical wall at x = 2
    let wall = vec![cell(2, 0), cell(2, 1), cell(2, 2), cell(2, 3), cell(2, 4)];
    assert!(!is_reachable(cell(0, 0), cell(4, 4), &wall, 5, 5));
    // the same wall with a gap at (2, 4)
    let gappy = vec![cell(2, 0), cell(2, 1), cell(2, 2), cell(2, 3)];
    assert!(is_reachable(cell(0, 0), cell(4, 4), &gappy, 5, 5));
}

#[test]
fn target_outside_grid_is_unreachable() {
    let none: Vec<Cell> = Vec::new();
    assert!(!is_reachable(cell(0, 0), cell(5, 0), &none, 5, 5));
    assert!(!is_reachable(cell(0, 0), cell(0, -1), &none, 5, 5));
}

#[test]
fn blocked_target_is_unreachable() {
    let obstacles = vec![cell(3, 3)];
    assert!(!is_reachable(cell(0, 0), cell(3, 3), &obstacles, 5, 5));
}
