use rand::rngs::StdRng;
use rand::SeedableRng;

use game_of_life::grid::{Cell, Grid};
use game_of_life::patterns::create_glider;
use game_of_life::session::{decode, turn, Event, Input, Key};
use game_of_life::world::World;

fn blinker() -> Grid {
    Grid::create_from_function(5, 5, |x, y| if x == 2 && y >= 1 && y <= 3 {
        Cell::Live
    } else {
        Cell::Dead
    })
}

#[test]
fn a_turn_without_input_is_a_step() {
    let mut rng = StdRng::seed_from_u64(2024);
    let mut world = World::new(blinker());
    assert!(turn(&mut world, None, &create_glider(), &mut rng));
    assert_eq!(world.grid(), &blinker().step());
    assert_eq!(world.generation(), 1);
}

#[test]
fn exit_ends_the_simulation_and_leaves_the_world() {
    let mut rng = StdRng::seed_from_u64(2024);
    let mut world = World::new(blinker());
    world.step();
    assert!(!turn(&mut world, Some(Input::Exit), &create_glider(), &mut rng));
    assert_eq!(world.grid(), &blinker().step());
    assert_eq!(world.generation(), 1);
}

#[test]
fn draw_stamps_the_pattern_before_the_step() {
    let mut rng = StdRng::seed_from_u64(2024);
    let mut world = World::new(Grid::create_dead(7, 6));
    world.step();
    world.step();
    assert!(turn(&mut world, Some(Input::Draw(5, 4)), &create_glider(), &mut rng));
    let mut expected = Grid::create_dead(7, 6);
    expected.write_cells(5, 4, &create_glider());
    assert_eq!(world.grid(), &expected.step());
    assert_eq!(world.generation(), 3);
}

#[test]
fn reroll_starts_over_with_the_same_dimensions() {
    let mut rng = StdRng::seed_from_u64(2024);
    let mut world = World::new(Grid::create_dead(9, 4));
    for _ in 0..5 {
        world.step();
    }
    assert!(turn(&mut world, Some(Input::Reroll), &create_glider(), &mut rng));
    assert_eq!(world.generation(), 1);
    assert_eq!((world.width(), world.height()), (9, 4));
    assert_eq!(world.grid().iterate_cells().len(), 36);
}

#[test]
fn reroll_of_an_empty_world_stays_empty() {
    let mut rng = StdRng::seed_from_u64(2024);
    let mut world = World::new(Grid::create_dead(0, 4));
    assert!(turn(&mut world, Some(Input::Reroll), &create_glider(), &mut rng));
    assert_eq!((world.width(), world.height()), (0, 4));
    assert_eq!(world.generation(), 1);
}

#[test]
fn decode_reads_keys() {
    assert_eq!(decode(Some(Event::Key(Key::Escape))), Some(Input::Exit));
    assert_eq!(decode(Some(Event::Key(Key::Enter))), Some(Input::Reroll));
    assert_eq!(decode(Some(Event::Key(Key::Other))), None);
    assert_eq!(decode(None), None);
}

#[test]
fn decode_reads_the_left_mouse_button() {
    let click = Event::Mouse { left_pressed: true, column: 12, row: 7 };
    assert_eq!(decode(Some(click)), Some(Input::Draw(12, 7)));
    let hover = Event::Mouse { left_pressed: false, column: 12, row: 7 };
    assert_eq!(decode(Some(hover)), None);
    let origin = Event::Mouse { left_pressed: true, column: 0, row: 0 };
    assert_eq!(decode(Some(origin)), Some(Input::Draw(0, 0)));
}

#[test]
fn decode_takes_a_coordinate_below_zero_by_its_bits() {
    let outside = Event::Mouse { left_pressed: true, column: -1, row: isize::MIN };
    assert_eq!(
        decode(Some(outside)),
        Some(Input::Draw(usize::MAX, (usize::MAX >> 1) + 1))
    );
}
