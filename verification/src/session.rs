//! One turn of a running simulation: what the user asked for is done, then
//! the world takes a step.

use vstd::prelude::*;
use rand::rngs::StdRng;
use crate::grid::{Board, Grid};
use crate::world::{World, WorldState};

verus! {

/// What the user asked for.
#[derive(Clone, Copy, Debug, PartialEq, Eq, Structural)]
pub enum Input {
    /// Leave the simulation.
    Exit,
    /// Start over with a random world of the same dimensions.
    Reroll,
    /// Stamp the pattern at a position.
    Draw(usize, usize),
}

/// A key of the keyboard: one of the two that mean something here, or any
/// other.
#[derive(Clone, Copy, Debug, PartialEq, Eq, Structural)]
pub enum Key {
    Escape,
    Enter,
    Other,
}

/// What the window reports: a key, or the mouse with the cell that it
/// points at.
#[derive(Clone, Copy, Debug, PartialEq, Eq, Structural)]
pub enum Event {
    Key(Key),
    Mouse { left_pressed: bool, column: isize, row: isize },
}

/// What the user asks for with an event: Escape leaves, Enter starts over,
/// and the left mouse button stamps the pattern where the mouse points. A
/// coordinate below zero is taken as the machine word of the same bits.
pub open spec fn input_of(event: Option<Event>) -> Option<Input> {
    match event {
        Some(Event::Key(Key::Escape)) => Some(Input::Exit),
        Some(Event::Key(Key::Enter)) => Some(Input::Reroll),
        Some(Event::Mouse { left_pressed, column, row }) => if left_pressed {
            Some(Input::Draw(column as usize, row as usize))
        } else {
            None
        },
        _ => None,
    }
}

/// Reads an event, if there is one, as what the user asks for.
pub fn decode(event: Option<Event>) -> (input: Option<Input>)
    ensures
        input == input_of(event),
{
    match event {
        Some(Event::Key(Key::Escape)) => Some(Input::Exit),
        Some(Event::Key(Key::Enter)) => Some(Input::Reroll),
        Some(Event::Mouse { left_pressed, column, row }) => {
            if left_pressed {
                Some(Input::Draw(
                    #[verifier::truncate]
                    (column as usize),
                    #[verifier::truncate]
                    (row as usize),
                ))
            } else {
                None
            }
        },
        _ => None,
    }
}

/// The world after the input was applied and before the step, for the
/// inputs that do not depend on chance.
pub open spec fn applied(state: WorldState, input: Option<Input>, pattern: Board) -> WorldState {
    match input {
        Some(Input::Draw(x, y)) => WorldState {
            board: state.board.stamp(x as int, y as int, pattern),
            ..state
        },
        _ => state,
    }
}

/// Whether a turn with this input steps the world that it was given, so
/// that the generation of that world must not be the last one that can be
/// counted.
pub open spec fn advances(input: Option<Input>) -> bool {
    input != Some(Input::Exit) && input != Some(Input::Reroll)
}

/// Takes one turn and tells whether the simulation goes on.
///
/// `Exit` ends it and leaves the world as it is. `Reroll` replaces the
/// world by a random one of the same dimensions, at generation 0. `Draw`
/// stamps `pattern` at the position. In every case but `Exit` the world then
/// takes a step.
pub fn turn(world: &mut World, input: Option<Input>, pattern: &Grid, rng: &mut StdRng) -> (go_on:
    bool)
    requires
        advances(input) ==> old(world)@.generation < u64::MAX,
    ensures
        go_on == !(input == Some(Input::Exit)),
        final(world)@.board.width == old(world)@.board.width,
        final(world)@.board.height == old(world)@.board.height,
        final(world)@.board.wf(),
        match input {
            Some(Input::Exit) => final(world)@ == old(world)@,
            Some(Input::Reroll) => final(world)@.generation == 1,
            _ => final(world)@ == applied(old(world)@, input, pattern@).step(),
        },
{
    let width: usize = world.width();
    let height: usize = world.height();
    match input {
        Some(Input::Exit) => {
            return false;
        },
        Some(Input::Reroll) => {
            *world = World::new(Grid::create_random(width, height, rng));
        },
        Some(Input::Draw(x, y)) => {
            world.write_cells(x, y, pattern);
        },
        None => {},
    }
    world.step();
    true
}

} // verus!
