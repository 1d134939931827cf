use game_of_life::grid::{Cell, Grid};
use game_of_life::patterns::create_glider;
use game_of_life::world::World;

#[test]
fn a_new_world_is_at_generation_zero() {
    let world = World::new(Grid::create_dead(4, 3));
    assert_eq!(world.generation(), 0);
    assert_eq!(world.width(), 4);
    assert_eq!(world.height(), 3);
    assert_eq!(world.grid(), &Grid::create_dead(4, 3));
}

#[test]
fn generation_counts_the_steps() {
    let mut world = World::new(Grid::create_dead(3, 3));
    for taken in 1..=25u64 {
        world.step();
        assert_eq!(world.generation(), taken);
    }
}

#[test]
fn step_advances_the_grid() {
    let cells = vec![
        Cell::Dead, Cell::Dead, Cell::Dead, Cell::Dead, Cell::Dead,
        Cell::Dead, Cell::Dead, Cell::Live, Cell::Dead, Cell::Dead,
        Cell::Dead, Cell::Dead, Cell::Live, Cell::Dead, Cell::Dead,
        Cell::Dead, Cell::Dead, Cell::Live, Cell::Dead, Cell::Dead,
        Cell::Dead, Cell::Dead, Cell::Dead, Cell::Dead, Cell::Dead,
    ];
    let grid = Grid::create(5, 5, cells).unwrap();
    let mut world = World::new(grid.clone());
    world.step();
    assert_eq!(world.grid(), &grid.step());
    assert_ne!(world.grid(), &grid);
    world.step();
    assert_eq!(world.grid(), &grid);
    assert_eq!(world.generation(), 2);
    assert_eq!((world.width(), world.height()), (5, 5));
}

#[test]
fn write_cells_stamps_the_grid_and_keeps_the_generation() {
    let mut world = World::new(Grid::create_dead(6, 6));
    world.step();
    world.write_cells(4, 4, &create_glider());
    let mut expected = Grid::create_dead(6, 6);
    expected.write_cells(4, 4, &create_glider());
    assert_eq!(world.grid(), &expected);
    assert_eq!(world.generation(), 1);
    // The glider crossed both edges: its last column is column 0.
    assert_eq!(world.grid().cell(0, 4), Cell::Live);
    assert_eq!(world.grid().cell(0, 5), Cell::Live);
    assert_eq!(world.grid().cell(0, 0), Cell::Live);
    assert_eq!(world.grid().cell(5, 0), Cell::Live);
    assert_eq!(world.grid().cell(4, 5), Cell::Live);
    assert_eq!(world.grid().iterate_cells().iter().filter(|c| c.2.is_live()).count(), 5);
}
