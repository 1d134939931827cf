use rand::rngs::StdRng;
use rand::SeedableRng;

use game_of_life::grid::{Cell, Grid, GridError};
use game_of_life::patterns::create_glider;
use game_of_life::torus::wrapping_sum;

const O: Cell = Cell::Live;
const X: Cell = Cell::Dead;

fn grid_of(rows: &[&str]) -> Grid {
    let height = rows.len();
    let width = if height == 0 { 0 } else { rows[0].chars().count() };
    let mut cells = Vec::new();
    for row in rows {
        for c in row.chars() {
            cells.push(if c == 'O' { O } else { X });
        }
    }
    Grid::create(width, height, cells).unwrap()
}

fn picture(grid: &Grid) -> Vec<String> {
    grid.iterate_rows()
        .iter()
        .map(|row| row.iter().map(|c| if c.is_live() { 'O' } else { '.' }).collect())
        .collect()
}

#[test]
fn cell_liveness() {
    assert!(Cell::Live.is_live());
    assert!(!Cell::Dead.is_live());
}

#[test]
fn create_keeps_cells_in_row_major_order() {
    let grid = Grid::create(3, 2, vec![O, X, X, X, O, O]).unwrap();
    assert_eq!(grid.width(), 3);
    assert_eq!(grid.height(), 2);
    assert_eq!(grid.cell(0, 0), O);
    assert_eq!(grid.cell(1, 0), X);
    assert_eq!(grid.cell(2, 0), X);
    assert_eq!(grid.cell(0, 1), X);
    assert_eq!(grid.cell(1, 1), O);
    assert_eq!(grid.cell(2, 1), O);
}

#[test]
fn create_rejects_a_wrong_cell_count() {
    assert_eq!(Grid::create(3, 2, vec![O, X, X, X, O]), Err(GridError::DimensionMismatch));
    assert_eq!(Grid::create(3, 2, vec![O; 7]), Err(GridError::DimensionMismatch));
    assert_eq!(Grid::create(0, 5, vec![O]), Err(GridError::DimensionMismatch));
    assert_eq!(Grid::create(usize::MAX, 2, vec![]), Err(GridError::DimensionMismatch));
    assert_eq!(
        Grid::create(usize::MAX, usize::MAX, vec![X]),
        Err(GridError::DimensionMismatch)
    );
}

#[test]
fn create_accepts_empty_grids() {
    let grid = Grid::create(0, 0, vec![]).unwrap();
    assert_eq!((grid.width(), grid.height()), (0, 0));
    let grid = Grid::create(7, 0, vec![]).unwrap();
    assert_eq!((grid.width(), grid.height()), (7, 0));
    assert!(grid.iterate_cells().is_empty());
    assert!(grid.iterate_rows().is_empty());
    let grid = Grid::create(0, 3, vec![]).unwrap();
    assert_eq!(grid.iterate_rows(), vec![Vec::<Cell>::new(); 3]);
}

#[test]
fn create_dead_has_only_dead_cells() {
    let grid = Grid::create_dead(4, 3);
    assert_eq!((grid.width(), grid.height()), (4, 3));
    assert_eq!(grid.iterate_cells().len(), 12);
    assert!(grid.iterate_cells().iter().all(|&(_, _, c)| c == X));
}

#[test]
fn create_from_function_asks_for_each_position() {
    let grid = Grid::create_from_function(3, 2, |x, y| if x == y + 1 { O } else { X });
    assert_eq!(picture(&grid), vec![".O.", "..O"]);
    let empty = Grid::create_from_function(0, 4, |_, _| O);
    assert_eq!((empty.width(), empty.height()), (0, 4));
}

#[test]
fn create_random_has_the_dimensions_asked_for() {
    let mut rng = StdRng::seed_from_u64(2024);
    let grid = Grid::create_random(9, 7, &mut rng);
    assert_eq!((grid.width(), grid.height()), (9, 7));
    let cells = grid.iterate_cells();
    assert_eq!(cells.len(), 63);
    assert!(cells.iter().all(|&(_, _, c)| c == O || c == X));
    let none = Grid::create_random(0, 7, &mut rng);
    assert!(none.iterate_cells().is_empty());
}

#[test]
fn create_random_is_settled_by_the_seed() {
    let first = Grid::create_random(12, 9, &mut StdRng::seed_from_u64(7));
    let again = Grid::create_random(12, 9, &mut StdRng::seed_from_u64(7));
    let other = Grid::create_random(12, 9, &mut StdRng::seed_from_u64(8));
    assert_eq!(first, again);
    assert_ne!(first, other);
}

#[test]
fn create_random_draws_both_states() {
    let mut rng = StdRng::seed_from_u64(2024);
    let grid = Grid::create_random(40, 40, &mut rng);
    let live = grid.iterate_cells().iter().filter(|&&(_, _, c)| c == O).count();
    assert!(live > 0);
    assert!(live < 1600);
}

#[test]
fn dead_grid_stays_dead() {
    for &(w, h) in &[(0, 0), (0, 3), (3, 0), (1, 1), (1, 5), (2, 2), (5, 4), (17, 9)] {
        let next = Grid::create_dead(w, h).step();
        assert_eq!(next, Grid::create_dead(w, h));
        assert_eq!((next.width(), next.height()), (w, h));
        assert_eq!(next.iterate_cells().len(), w * h);
    }
}

#[test]
fn block_is_a_still_life() {
    let block = grid_of(&["....", ".OO.", ".OO.", "...."]);
    assert_eq!(block.step(), block);
    let larger = grid_of(&["......", "......", "..OO..", "..OO..", "......", "......"]);
    assert_eq!(larger.step().step().step(), larger);
}

#[test]
fn blinker_oscillates() {
    let upright = grid_of(&[".....", "..O..", "..O..", "..O..", "....."]);
    let flat = grid_of(&[".....", ".....", ".OOO.", ".....", "....."]);
    assert_eq!(upright.step(), flat);
    assert_eq!(flat.step(), upright);
}

#[test]
fn rule_counts_exactly() {
    // The centre cell of each picture, with 0 to 8 live neighbours.
    let rings = [
        ("...", "...", 0),
        ("O..", "...", 1),
        ("OO.", "...", 2),
        ("OOO", "...", 3),
        ("OOO", "O..", 4),
        ("OOO", "OO.", 5),
        ("OOO", "OOO", 6),
    ];
    for &(top, bottom, count) in &rings {
        for &centre in &['O', '.'] {
            let middle = format!("..{}..", centre);
            let rows = [
                ".....".to_string(),
                format!(".{}.", top),
                middle,
                format!(".{}.", bottom),
                ".....".to_string(),
            ];
            let rows: Vec<&str> = rows.iter().map(|r| r.as_str()).collect();
            let next = grid_of(&rows).step();
            let expected = if centre == 'O' { count == 2 || count == 3 } else { count == 3 };
            assert_eq!(next.cell(2, 2).is_live(), expected, "{} neighbours", count);
        }
    }
    let seven = grid_of(&[".....", ".OOO.", ".OOO.", ".OO..", "....."]);
    assert_eq!(seven.step().cell(2, 2), X);
    let eight = grid_of(&[".....", ".OOO.", ".OOO.", ".OOO.", "....."]);
    assert_eq!(eight.step().cell(2, 2), X);
    let eight_round_dead = grid_of(&[".....", ".OOO.", ".O.O.", ".OOO.", "....."]);
    assert_eq!(eight_round_dead.step().cell(2, 2), X);
}

#[test]
fn neighbours_wrap_around_the_edges() {
    // Three live cells in the corners next to (0, 0) on the torus.
    let corners = grid_of(&["....", "...O", "....", "O..O"]);
    let next = corners.step();
    assert_eq!(next.cell(0, 0), O);
    // A blinker across the left and right edge.
    let across = grid_of(&[".....", "O...O", ".....", "....."]);
    let row = grid_of(&[".....", "OO..O", ".....", "....."]);
    let column = grid_of(&["O....", "O....", "O....", "....."]);
    assert_eq!(across.step(), Grid::create_dead(5, 4));
    assert_eq!(row.step(), column);
}

#[test]
fn a_cell_alone_on_the_smallest_torus_is_its_own_neighbour() {
    // Every neighbour of the only position is that position: eight live
    // neighbours for a live cell, none for a dead one.
    assert_eq!(grid_of(&["O"]).step(), grid_of(&["."]));
    assert_eq!(grid_of(&["."]).step(), grid_of(&["."]));
    // Two positions: each cell sees itself twice and the other six times.
    assert_eq!(grid_of(&["O."]).step(), grid_of(&["O."]));
    assert_eq!(grid_of(&["OO"]).step(), grid_of(&[".."]));
}

#[test]
fn step_leaves_the_grid_it_reads() {
    let before = grid_of(&[".....", "..O..", "..O..", "..O..", "....."]);
    let copy = before.clone();
    let _ = before.step();
    assert_eq!(before, copy);
}

#[test]
fn glider_moves_one_cell_diagonally_in_four_steps() {
    let start = grid_of(&[
        ".O......", "..O.....", "OOO.....", "........", "........", "........", "........",
        "........",
    ]);
    let moved = grid_of(&[
        "........", "..O.....", "...O....", ".OOO....", "........", "........", "........",
        "........",
    ]);
    let after = start.step().step().step().step();
    assert_eq!(after, moved);
}

#[test]
fn glider_crosses_the_edges_of_the_torus() {
    let mut grid = grid_of(&[".....", ".....", "...O.", "....O", "..OOO"]);
    for _ in 0..4 {
        grid = grid.step();
    }
    // The same shape, one column to the right and one row down, modulo 5.
    assert_eq!(picture(&grid), vec!["O..OO", ".....", ".....", "....O", "O...."]);
    for _ in 0..16 {
        grid = grid.step();
    }
    assert_eq!(picture(&grid), vec![".....", ".....", "...O.", "....O", "..OOO"]);
}

#[test]
fn write_cells_copies_the_pattern_to_the_offset() {
    let mut grid = Grid::create_dead(6, 5);
    grid.write_cells(1, 2, &grid_of(&["OO.", ".OO"]));
    assert_eq!(picture(&grid), vec!["......", "......", ".OO...", "..OO..", "......"]);
}

#[test]
fn write_cells_overwrites_live_cells_with_dead_ones() {
    let mut grid = grid_of(&["OOOO", "OOOO", "OOOO"]);
    grid.write_cells(1, 0, &grid_of(&[".O", ".."]));
    assert_eq!(picture(&grid), vec!["O.OO", "O..O", "OOOO"]);
}

#[test]
fn write_cells_wraps_across_the_right_edge() {
    let mut grid = Grid::create_dead(5, 5);
    let pattern = grid_of(&["OO.", "O.O", ".OO"]);
    grid.write_cells(3, 1, &pattern);
    assert_eq!(picture(&grid), vec![".....", "...OO", "O..O.", "O...O", "....."]);
}

#[test]
fn write_cells_wraps_across_the_bottom_edge_and_the_corner() {
    let mut grid = Grid::create_dead(4, 4);
    grid.write_cells(3, 3, &grid_of(&["OO", "OO"]));
    assert_eq!(picture(&grid), vec!["O..O", "....", "....", "O..O"]);
}

#[test]
fn write_cells_takes_offsets_beyond_the_grid() {
    let mut grid = Grid::create_dead(4, 3);
    grid.write_cells(9, 7, &grid_of(&["O"]));
    assert_eq!(picture(&grid), vec!["....", ".O..", "...."]);
    let mut far = Grid::create_dead(4, 3);
    far.write_cells(usize::MAX, usize::MAX, &grid_of(&["OO"]));
    // usize::MAX is 3 modulo 4 and 0 modulo 3.
    assert_eq!(picture(&far), vec!["O..O", "....", "...."]);
}

#[test]
fn write_cells_with_a_larger_pattern_keeps_the_last_write() {
    let mut grid = Grid::create_dead(2, 1);
    grid.write_cells(0, 0, &grid_of(&["O.O"]));
    // Columns 0, 1, 0 in turn: the third cell lands on the first again.
    assert_eq!(picture(&grid), vec!["O."]);
    let mut other = Grid::create_dead(2, 1);
    other.write_cells(0, 0, &grid_of(&["OO."]));
    assert_eq!(picture(&other), vec![".O"]);
}

#[test]
fn write_cells_into_an_empty_grid_does_nothing() {
    let mut grid = Grid::create_dead(0, 3);
    grid.write_cells(1, 1, &grid_of(&["OO"]));
    assert_eq!(grid, Grid::create_dead(0, 3));
    let mut grid = Grid::create_dead(3, 3);
    grid.write_cells(1, 1, &Grid::create_dead(0, 0));
    assert_eq!(grid, Grid::create_dead(3, 3));
}

#[test]
fn iterate_rows_goes_top_to_bottom() {
    let grid = grid_of(&["O..", ".O.", "OOO", "..."]);
    assert_eq!(
        grid.iterate_rows(),
        vec![vec![O, X, X], vec![X, O, X], vec![O, O, O], vec![X, X, X]]
    );
    // A second walk gives the same rows.
    assert_eq!(grid.iterate_rows(), grid.iterate_rows());
}

#[test]
fn iterate_cells_goes_row_by_row() {
    let grid = grid_of(&["O.", ".O", "OO"]);
    assert_eq!(
        grid.iterate_cells(),
        vec![(0, 0, O), (1, 0, X), (0, 1, X), (1, 1, O), (0, 2, O), (1, 2, O)]
    );
}

#[test]
fn every_grid_holds_width_times_height_cells() {
    let mut rng = StdRng::seed_from_u64(2024);
    let grids = vec![
        Grid::create(2, 3, vec![X; 6]).unwrap(),
        Grid::create_dead(5, 2),
        Grid::create_random(3, 3, &mut rng),
        Grid::create_from_function(4, 2, |_, _| O),
        Grid::create_random(6, 2, &mut rng).step(),
        create_glider(),
    ];
    for grid in &grids {
        assert_eq!(grid.iterate_cells().len(), grid.width() * grid.height());
        assert_eq!(grid.iterate_rows().len(), grid.height());
        assert!(grid.iterate_rows().iter().all(|row| row.len() == grid.width()));
    }
}

#[test]
fn clone_is_equal() {
    let grid = grid_of(&["O..", ".O."]);
    assert_eq!(grid.clone(), grid);
}

#[test]
fn glider_pattern() {
    let glider = create_glider();
    assert_eq!(picture(&glider), vec!["..O", "O.O", ".OO"]);
}

#[test]
fn wrapping_sum_is_the_sum_modulo() {
    assert_eq!(wrapping_sum(3, 4, 5), 2);
    assert_eq!(wrapping_sum(0, 0, 1), 0);
    assert_eq!(wrapping_sum(7, 9, 1), 0);
    assert_eq!(wrapping_sum(2, 2, 5), 4);
    assert_eq!(wrapping_sum(2, 3, 5), 0);
    assert_eq!(wrapping_sum(usize::MAX, usize::MAX, usize::MAX), 0);
    assert_eq!(wrapping_sum(usize::MAX, 1, 10), (usize::MAX % 10 + 1) % 10);
    assert_eq!(wrapping_sum(usize::MAX - 1, usize::MAX - 1, usize::MAX), usize::MAX - 2);
}
