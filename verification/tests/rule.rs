use dla::cell::Cell;
use dla::driver::indices_of_2d_array;
use dla::grid::Grid;

fn tally(grid: &Grid, wanted: Cell) -> usize {
    let mut n = 0;
    for y in 0..grid.height() {
        for x in 0..grid.width() {
            if grid.get(y, x) == wanted {
                n += 1;
            }
        }
    }
    n
}

fn snapshot(grid: &Grid) -> Vec<Vec<Cell>> {
    (0..grid.height())
        .map(|y| (0..grid.width()).map(|x| grid.get(y, x)).collect())
        .collect()
}

fn without_seed(height: usize, width: usize) -> Grid {
    let mut grid = Grid::new(height, width);
    grid.set(height / 2, width / 2, Cell::Empty);
    grid
}

#[test]
fn flying_cell_left_of_the_seed_freezes_in_place() {
    let mut rng = rand::thread_rng();
    let mut grid = Grid::new(5, 5);
    grid.set(2, 1, Cell::Flying);
    let n = grid.neighbors(2, 1);
    assert_eq!((n.up, n.down, n.left, n.right), ((1, 1), (3, 1), (2, 0), (2, 2)));
    assert_eq!(grid.get(2, 2), Cell::Frozen);
    let seen = grid.sweep(&indices_of_2d_array(5, 5), &mut rng);
    assert_eq!(seen, 1);
    for y in 0..5 {
        for x in 0..5 {
            let expected = match (y, x) {
                (2, 1) | (2, 2) => Cell::Frozen,
                _ => Cell::Empty,
            };
            assert_eq!(grid.get(y, x), expected);
        }
    }
}

#[test]
fn visit_freezes_on_contact_from_every_side() {
    let mut rng = rand::thread_rng();
    for (y, x) in [(2, 1), (2, 3), (1, 2), (3, 2)] {
        let mut grid = Grid::new(5, 5);
        grid.set(y, x, Cell::Flying);
        assert!(grid.visit(y, x, &mut rng));
        assert_eq!(grid.get(y, x), Cell::Frozen);
        assert_eq!(tally(&grid, Cell::Frozen), 2);
        assert_eq!(tally(&grid, Cell::Flying), 0);
        assert_eq!(tally(&grid, Cell::Empty), 23);
    }
}

#[test]
fn visit_freezes_on_contact_across_the_wrapping_edge() {
    let mut rng = rand::thread_rng();
    let mut grid = without_seed(4, 4);
    grid.set(1, 0, Cell::Frozen);
    grid.set(1, 3, Cell::Flying);
    assert!(grid.visit(1, 3, &mut rng));
    assert_eq!(grid.get(1, 3), Cell::Frozen);
    assert_eq!(tally(&grid, Cell::Frozen), 2);
}

#[test]
fn visit_leaves_other_cells_alone() {
    let mut rng = rand::thread_rng();
    let mut grid = Grid::new(5, 5);
    let before = snapshot(&grid);
    assert!(!grid.visit(0, 0, &mut rng));
    assert!(!grid.visit(2, 2, &mut rng));
    assert_eq!(snapshot(&grid), before);
}

#[test]
fn surrounded_flying_cell_stays() {
    let mut rng = rand::thread_rng();
    let mut grid = without_seed(5, 5);
    for (y, x) in [(2, 2), (1, 2), (3, 2), (2, 1), (2, 3)] {
        grid.set(y, x, Cell::Flying);
    }
    let before = snapshot(&grid);
    assert!(grid.visit(2, 2, &mut rng));
    assert_eq!(grid.get(2, 2), Cell::Flying);
    assert_eq!(snapshot(&grid), before);
}

#[test]
fn grid_full_of_flying_cells_stays_as_it_is() {
    let mut rng = rand::thread_rng();
    let mut grid = Grid::new(3, 3);
    for y in 0..3 {
        for x in 0..3 {
            grid.set(y, x, Cell::Flying);
        }
    }
    let seen = grid.sweep(&indices_of_2d_array(3, 3), &mut rng);
    assert_eq!(seen, 9);
    assert_eq!(tally(&grid, Cell::Flying), 9);
}

#[test]
fn lone_flying_cell_on_a_single_cell_grid_stays() {
    let mut rng = rand::thread_rng();
    let mut grid = Grid::new(1, 1);
    grid.set(0, 0, Cell::Flying);
    assert!(grid.visit(0, 0, &mut rng));
    assert_eq!(grid.get(0, 0), Cell::Flying);
}

#[test]
fn visit_moves_to_the_only_empty_neighbor() {
    let mut rng = rand::thread_rng();
    let mut grid = without_seed(1, 3);
    grid.set(0, 0, Cell::Flying);
    assert!(grid.visit(0, 0, &mut rng));
    assert_eq!(snapshot(&grid), vec![vec![Cell::Empty, Cell::Flying, Cell::Empty]]);
}

#[test]
fn visit_moves_to_a_neighbor_that_is_listed_twice() {
    let mut rng = rand::thread_rng();
    let mut grid = without_seed(1, 2);
    grid.set(0, 1, Cell::Flying);
    assert!(grid.visit(0, 1, &mut rng));
    assert_eq!(snapshot(&grid), vec![vec![Cell::Flying, Cell::Empty]]);
}

#[test]
fn visit_moves_past_flying_neighbors() {
    let mut rng = rand::thread_rng();
    let mut grid = without_seed(5, 5);
    for (y, x) in [(2, 2), (1, 2), (3, 2), (2, 1)] {
        grid.set(y, x, Cell::Flying);
    }
    assert!(grid.visit(2, 2, &mut rng));
    assert_eq!(grid.get(2, 2), Cell::Empty);
    assert_eq!(grid.get(2, 3), Cell::Flying);
    assert_eq!(tally(&grid, Cell::Flying), 4);
}

#[test]
fn visit_moves_to_one_of_the_empty_neighbors() {
    let mut rng = rand::thread_rng();
    let mut reached = [false; 4];
    for _ in 0..400 {
        let mut grid = without_seed(5, 5);
        grid.set(1, 1, Cell::Flying);
        assert!(grid.visit(1, 1, &mut rng));
        assert_eq!(grid.get(1, 1), Cell::Empty);
        assert_eq!(tally(&grid, Cell::Flying), 1);
        assert_eq!(tally(&grid, Cell::Empty), 24);
        let targets = [(1, 0), (1, 2), (0, 1), (2, 1)];
        let hit = targets.iter().position(|&(y, x)| grid.get(y, x) == Cell::Flying);
        assert!(hit.is_some());
        reached[hit.unwrap()] = true;
    }
    assert_eq!(reached, [true; 4]);
}

#[test]
fn sweep_visits_a_particle_again_where_it_landed() {
    let mut rng = rand::thread_rng();
    for _ in 0..50 {
        let mut grid = without_seed(1, 3);
        grid.set(0, 0, Cell::Flying);
        let seen = grid.sweep(&indices_of_2d_array(1, 3), &mut rng);
        assert!(seen == 2 || seen == 3);
        assert_eq!(tally(&grid, Cell::Flying), 1);
        assert_eq!(tally(&grid, Cell::Empty), 2);
    }
}

#[test]
fn sweep_sees_what_earlier_visits_left() {
    let mut rng = rand::thread_rng();
    let mut grid = Grid::new(1, 5);
    grid.set(0, 0, Cell::Flying);
    let seen = grid.sweep(&indices_of_2d_array(1, 5), &mut rng);
    assert_eq!(seen, 2);
    assert_eq!(
        snapshot(&grid),
        vec![vec![Cell::Empty, Cell::Frozen, Cell::Frozen, Cell::Empty, Cell::Empty]]
    );
}

#[test]
fn sweep_over_a_settled_grid_sees_nothing() {
    let mut rng = rand::thread_rng();
    let mut grid = Grid::new(4, 4);
    grid.set(0, 3, Cell::Frozen);
    let before = snapshot(&grid);
    let seen = grid.sweep(&indices_of_2d_array(4, 4), &mut rng);
    assert_eq!(seen, 0);
    assert_eq!(snapshot(&grid), before);
}

#[test]
fn sweep_over_no_coordinates_does_nothing() {
    let mut rng = rand::thread_rng();
    let mut grid = Grid::new(3, 3);
    grid.set(1, 0, Cell::Flying);
    let before = snapshot(&grid);
    assert_eq!(grid.sweep(&Vec::new(), &mut rng), 0);
    assert_eq!(snapshot(&grid), before);
}

#[test]
fn sweep_follows_the_order_it_is_given() {
    let mut rng = rand::thread_rng();
    let mut grid = Grid::new(1, 5);
    grid.set(0, 0, Cell::Flying);
    grid.set(0, 1, Cell::Flying);
    let seen = grid.sweep(&vec![(0, 1), (0, 0)], &mut rng);
    assert_eq!(seen, 2);
    assert_eq!(
        snapshot(&grid),
        vec![vec![Cell::Frozen, Cell::Frozen, Cell::Frozen, Cell::Empty, Cell::Empty]]
    );
}

#[test]
fn frozen_cells_and_the_number_of_occupied_cells_last() {
    let mut rng = rand::thread_rng();
    let order = indices_of_2d_array(6, 7);
    for _ in 0..20 {
        let mut grid = Grid::new(6, 7);
        grid.scatter(8, &mut rng);
        let occupied = 42 - tally(&grid, Cell::Empty);
        for _ in 0..200 {
            let before = snapshot(&grid);
            let flying = tally(&grid, Cell::Flying);
            let seen = grid.sweep(&order, &mut rng);
            assert_eq!(seen == 0, flying == 0);
            assert!(seen >= flying);
            assert_eq!(42 - tally(&grid, Cell::Empty), occupied);
            for y in 0..6 {
                for x in 0..7 {
                    if before[y][x] == Cell::Frozen {
                        assert_eq!(grid.get(y, x), Cell::Frozen);
                    }
                }
            }
        }
    }
}

#[test]
fn scatter_of_nothing_changes_nothing() {
    let mut rng = rand::thread_rng();
    let mut grid = Grid::new(5, 5);
    let before = snapshot(&grid);
    grid.scatter(0, &mut rng);
    assert_eq!(snapshot(&grid), before);
}

#[test]
fn scatter_of_one_places_one_flying_cell() {
    let mut rng = rand::thread_rng();
    for _ in 0..200 {
        let mut grid = Grid::new(3, 3);
        grid.scatter(1, &mut rng);
        assert_eq!(tally(&grid, Cell::Flying), 1);
        assert_eq!(tally(&grid, Cell::Frozen) + tally(&grid, Cell::Flying), 2 - usize::from(grid.get(1, 1) == Cell::Flying));
    }
}

#[test]
fn scatter_may_hit_the_same_cell_twice() {
    let mut rng = rand::thread_rng();
    for _ in 0..50 {
        let mut grid = Grid::new(2, 2);
        grid.scatter(40, &mut rng);
        let flying = tally(&grid, Cell::Flying);
        assert!(1 <= flying && flying <= 4);
        assert_eq!(tally(&grid, Cell::Empty) + tally(&grid, Cell::Frozen), 4 - flying);
    }
}

#[test]
fn scatter_on_a_single_cell_grid_overwrites_the_seed() {
    let mut rng = rand::thread_rng();
    let mut grid = Grid::new(1, 1);
    grid.scatter(1, &mut rng);
    assert_eq!(grid.get(0, 0), Cell::Flying);
}

#[test]
fn scatter_reaches_every_cell() {
    let mut rng = rand::thread_rng();
    let mut grid = Grid::new(2, 3);
    grid.scatter(2000, &mut rng);
    assert_eq!(tally(&grid, Cell::Flying), 6);
}
