use dla::cell::Cell;
use dla::grid::Grid;

fn count(grid: &Grid, wanted: Cell) -> usize {
    let mut n = 0;
    for y in 0..grid.height() {
        for x in 0..grid.width() {
            if grid.get(y, x) == wanted {
                n += 1;
            }
        }
    }
    n
}

fn cleared(height: usize, width: usize) -> Grid {
    let mut grid = Grid::new(height, width);
    grid.set(height / 2, width / 2, Cell::Empty);
    grid
}

#[test]
fn new_grid_has_the_seed_at_the_centre() {
    let grid = Grid::new(5, 5);
    assert_eq!(grid.height(), 5);
    assert_eq!(grid.width(), 5);
    for y in 0..5 {
        for x in 0..5 {
            let expected = if (y, x) == (2, 2) { Cell::Frozen } else { Cell::Empty };
            assert_eq!(grid.get(y, x), expected);
        }
    }
}

#[test]
fn seed_of_an_uneven_grid() {
    let grid = Grid::new(4, 7);
    assert_eq!(grid.height(), 4);
    assert_eq!(grid.width(), 7);
    assert_eq!(grid.get(2, 3), Cell::Frozen);
    assert_eq!(count(&grid, Cell::Frozen), 1);
    assert_eq!(count(&grid, Cell::Empty), 27);
}

#[test]
fn seed_of_the_smallest_grid() {
    let grid = Grid::new(1, 1);
    assert_eq!(grid.get(0, 0), Cell::Frozen);
}

#[test]
fn set_changes_one_cell_only() {
    let mut grid = Grid::new(3, 4);
    grid.set(0, 3, Cell::Flying);
    for y in 0..3 {
        for x in 0..4 {
            let expected = match (y, x) {
                (0, 3) => Cell::Flying,
                (1, 2) => Cell::Frozen,
                _ => Cell::Empty,
            };
            assert_eq!(grid.get(y, x), expected);
        }
    }
}

#[test]
fn set_overwrites_what_was_there() {
    let mut grid = Grid::new(3, 3);
    grid.set(1, 1, Cell::Flying);
    assert_eq!(grid.get(1, 1), Cell::Flying);
    grid.set(1, 1, Cell::Empty);
    assert_eq!(grid.get(1, 1), Cell::Empty);
    assert_eq!(count(&grid, Cell::Empty), 9);
}

#[test]
fn rows_and_columns_are_not_mixed_up() {
    let mut grid = cleared(2, 3);
    grid.set(1, 2, Cell::Flying);
    grid.set(0, 1, Cell::Frozen);
    assert_eq!(grid.get(1, 2), Cell::Flying);
    assert_eq!(grid.get(0, 1), Cell::Frozen);
    assert_eq!(grid.get(1, 1), Cell::Empty);
    assert_eq!(grid.get(0, 2), Cell::Empty);
}

#[test]
fn neighbors_in_the_middle() {
    let grid = Grid::new(5, 5);
    let n = grid.neighbors(2, 1);
    assert_eq!(n.up, (1, 1));
    assert_eq!(n.down, (3, 1));
    assert_eq!(n.left, (2, 0));
    assert_eq!(n.right, (2, 2));
}

#[test]
fn neighbors_clamp_at_row_and_column_zero() {
    let grid = Grid::new(5, 5);
    let corner = grid.neighbors(0, 0);
    assert_eq!(corner.up, (0, 0));
    assert_eq!(corner.left, (0, 0));
    assert_eq!(corner.down, (1, 0));
    assert_eq!(corner.right, (0, 1));
    let top = grid.neighbors(0, 3);
    assert_eq!(top.up, (0, 3));
    assert_eq!(top.left, (0, 2));
    let side = grid.neighbors(3, 0);
    assert_eq!(side.left, (3, 0));
    assert_eq!(side.up, (2, 0));
}

#[test]
fn neighbors_wrap_at_the_last_row_and_column() {
    let grid = Grid::new(5, 5);
    let corner = grid.neighbors(4, 4);
    assert_eq!(corner.down, (0, 4));
    assert_eq!(corner.right, (4, 0));
    assert_eq!(corner.up, (3, 4));
    assert_eq!(corner.left, (4, 3));
    let bottom = grid.neighbors(4, 1);
    assert_eq!(bottom.down, (0, 1));
    assert_eq!(bottom.right, (4, 2));
    let side = grid.neighbors(1, 4);
    assert_eq!(side.right, (1, 0));
    assert_eq!(side.down, (2, 4));
}

#[test]
fn neighbors_on_an_uneven_grid() {
    let grid = Grid::new(2, 6);
    let n = grid.neighbors(1, 5);
    assert_eq!(n.down, (0, 5));
    assert_eq!(n.right, (1, 0));
    assert_eq!(n.up, (0, 5));
    assert_eq!(n.left, (1, 4));
}

#[test]
fn single_cell_grid_is_its_own_neighbor() {
    let grid = Grid::new(1, 1);
    let n = grid.neighbors(0, 0);
    assert_eq!(n.up, (0, 0));
    assert_eq!(n.down, (0, 0));
    assert_eq!(n.left, (0, 0));
    assert_eq!(n.right, (0, 0));
}

#[test]
fn next_to_frozen_looks_at_all_four_sides() {
    let grid = Grid::new(5, 5);
    assert!(grid.next_to_frozen(2, 1));
    assert!(grid.next_to_frozen(2, 3));
    assert!(grid.next_to_frozen(1, 2));
    assert!(grid.next_to_frozen(3, 2));
    assert!(!grid.next_to_frozen(1, 1));
    assert!(!grid.next_to_frozen(2, 2));
    assert!(!grid.next_to_frozen(0, 0));
}

#[test]
fn next_to_frozen_across_the_wrapping_edge() {
    let mut grid = cleared(3, 3);
    grid.set(0, 0, Cell::Frozen);
    assert!(grid.next_to_frozen(2, 0));
    assert!(grid.next_to_frozen(0, 2));
    assert!(grid.next_to_frozen(0, 0));
    assert!(!grid.next_to_frozen(2, 2));
}

#[test]
fn next_to_frozen_does_not_wrap_backwards() {
    let mut grid = cleared(3, 3);
    grid.set(2, 2, Cell::Frozen);
    assert!(!grid.next_to_frozen(0, 2));
    assert!(!grid.next_to_frozen(2, 0));
    assert!(grid.next_to_frozen(1, 2));
    assert!(grid.next_to_frozen(2, 1));
}

#[test]
fn empty_neighbors_come_left_right_up_down() {
    let grid = cleared(5, 5);
    assert_eq!(grid.empty_neighbors(1, 1), vec![(1, 0), (1, 2), (0, 1), (2, 1)]);
}

#[test]
fn empty_neighbors_leave_out_what_is_taken() {
    let mut grid = Grid::new(5, 5);
    grid.set(1, 1, Cell::Flying);
    grid.set(1, 0, Cell::Flying);
    assert_eq!(grid.empty_neighbors(1, 1), vec![(1, 2), (0, 1), (2, 1)]);
    assert_eq!(grid.empty_neighbors(2, 1), vec![(2, 0), (3, 1)]);
}

#[test]
fn empty_neighbors_list_a_shared_neighbor_twice() {
    let mut grid = cleared(1, 2);
    grid.set(0, 1, Cell::Flying);
    assert_eq!(grid.empty_neighbors(0, 1), vec![(0, 0), (0, 0)]);
}

#[test]
fn empty_neighbors_of_a_corner_leave_out_the_cell_itself() {
    let mut grid = cleared(3, 3);
    grid.set(0, 0, Cell::Flying);
    assert_eq!(grid.empty_neighbors(0, 0), vec![(0, 1), (1, 0)]);
}

#[test]
fn relocate_moves_the_particle() {
    let mut grid = Grid::new(5, 5);
    grid.set(0, 0, Cell::Flying);
    grid.relocate(0, 0, Some((0, 1)));
    assert_eq!(grid.get(0, 0), Cell::Empty);
    assert_eq!(grid.get(0, 1), Cell::Flying);
    assert_eq!(grid.get(2, 2), Cell::Frozen);
    assert_eq!(count(&grid, Cell::Flying), 1);
    assert_eq!(count(&grid, Cell::Empty), 23);
}

#[test]
fn relocate_without_a_target_changes_nothing() {
    let mut grid = Grid::new(5, 5);
    grid.set(0, 0, Cell::Flying);
    grid.relocate(0, 0, None);
    assert_eq!(grid.get(0, 0), Cell::Flying);
    assert_eq!(count(&grid, Cell::Flying), 1);
    assert_eq!(count(&grid, Cell::Frozen), 1);
}

#[test]
fn render_draws_one_line_for_each_row() {
    let grid = Grid::new(2, 3);
    assert_eq!(grid.render(), "   \n * \n");
}

#[test]
fn render_draws_each_state_with_its_glyph() {
    let mut grid = Grid::new(3, 4);
    grid.set(0, 0, Cell::Flying);
    grid.set(2, 3, Cell::Flying);
    assert_eq!(grid.render(), "~   \n  * \n   ~\n");
}

#[test]
fn render_of_the_smallest_grid() {
    let mut grid = Grid::new(1, 1);
    assert_eq!(grid.render(), "*\n");
    grid.set(0, 0, Cell::Flying);
    assert_eq!(grid.render(), "~\n");
    grid.set(0, 0, Cell::Empty);
    assert_eq!(grid.render(), " \n");
}
