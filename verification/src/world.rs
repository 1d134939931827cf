//! A grid together with the count of generations it has gone through.

use vstd::prelude::*;
use crate::grid::{Board, Grid};

verus! {

/// The mathematical model of a world: its board and its generation.
pub struct WorldState {
    pub board: Board,
    pub generation: nat,
}

impl WorldState {
    /// The world that starts with `board`, at generation 0.
    pub open spec fn start(board: Board) -> WorldState {
        WorldState { board, generation: 0 }
    }

    /// The world one tick later.
    pub open spec fn step(self) -> WorldState {
        WorldState { board: self.board.step(), generation: self.generation + 1 }
    }

    /// The world `ticks` ticks later.
    pub open spec fn steps(self, ticks: nat) -> WorldState
        decreases ticks,
    {
        if ticks == 0 {
            self
        } else {
            self.steps((ticks - 1) as nat).step()
        }
    }
}

/// The generation of a world counts its ticks: after `ticks` steps it has
/// grown by exactly `ticks`, while the dimensions of the board stay.
pub proof fn lemma_generation_counts_steps(state: WorldState, ticks: nat)
    ensures
        state.steps(ticks).generation == state.generation + ticks,
        state.steps(ticks).board.width == state.board.width,
        state.steps(ticks).board.height == state.board.height,
    decreases ticks,
{
    if ticks > 0 {
        lemma_generation_counts_steps(state, (ticks - 1) as nat);
    }
}

/// A world starts at generation 0, and its generation is the number of
/// steps taken since.
pub proof fn lemma_generation_from_start(board: Board, ticks: nat)
    ensures
        WorldState::start(board).generation == 0,
        WorldState::start(board).steps(ticks).generation == ticks,
{
    lemma_generation_counts_steps(WorldState::start(board), ticks);
}

/// A grid and the number of steps taken since the world was made.
#[derive(Clone, Debug, PartialEq, Eq)]
pub struct World {
    grid: Grid,
    generation: u64,
}

impl View for World {
    type V = WorldState;

    closed spec fn view(&self) -> WorldState {
        WorldState { board: self.grid@, generation: self.generation as nat }
    }
}

impl World {
    /// A world that starts with `grid`, at generation 0.
    pub fn new(grid: Grid) -> (world: World)
        ensures
            world@ == WorldState::start(grid@),
    {
        World { grid, generation: 0 }
    }

    /// Advances the world by one generation.
    pub fn step(&mut self)
        requires
            old(self)@.generation < u64::MAX,
        ensures
            final(self)@ == old(self)@.step(),
            final(self)@.board.wf(),
    {
        self.grid = self.grid.step();
        self.generation = self.generation + 1;
    }

    /// Copies `pattern` into the grid of the world, as `Grid::write_cells`
    /// does. The generation stays as it is.
    pub fn write_cells(&mut self, x: usize, y: usize, pattern: &Grid)
        ensures
            final(self)@ == (WorldState {
                board: old(self)@.board.stamp(x as int, y as int, pattern@),
                generation: old(self)@.generation,
            }),
            final(self)@.board.width == old(self)@.board.width,
            final(self)@.board.height == old(self)@.board.height,
            final(self)@.board.wf(),
    {
        self.grid.write_cells(x, y, pattern);
    }

    /// The grid of the world.
    pub fn grid(&self) -> (grid: &Grid)
        ensures
            grid@ == self@.board,
    {
        &self.grid
    }

    /// The number of columns of the grid. The grid holds one cell for each
    /// position, and their number fits the machine word.
    pub fn width(&self) -> (w: usize)
        ensures
            w == self@.board.width,
            self@.board.wf(),
            self@.board.cells.len() <= usize::MAX,
    {
        self.grid.width()
    }

    /// The number of rows of the grid. The grid holds one cell for each
    /// position, and their number fits the machine word.
    pub fn height(&self) -> (h: usize)
        ensures
            h == self@.board.height,
            self@.board.wf(),
            self@.board.cells.len() <= usize::MAX,
    {
        self.grid.height()
    }

    /// The number of steps taken so far.
    pub fn generation(&self) -> (generation: u64)
        ensures
            generation == self@.generation,
    {
        self.generation
    }
}

} // verus!
