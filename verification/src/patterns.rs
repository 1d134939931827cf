//! Ready-made patterns.

use vstd::prelude::*;
use crate::grid::{Board, Cell, Grid};

verus! {

/// The board of the glider that `create_glider` builds: three by three
/// cells, five of them live.
pub open spec fn glider_board() -> Board {
    Board {
        width: 3,
        height: 3,
        cells: seq![
            Cell::Dead,
            Cell::Dead,
            Cell::Live,
            Cell::Live,
            Cell::Dead,
            Cell::Live,
            Cell::Dead,
            Cell::Live,
            Cell::Live,
        ],
    }
}

/// A glider, to be stamped into a world.
pub fn create_glider() -> (glider: Grid)
    ensures
        glider@ == glider_board(),
        glider@.wf(),
{
    let cells: Vec<Cell> = vec![
        Cell::Dead,
        Cell::Dead,
        Cell::Live,
        Cell::Live,
        Cell::Dead,
        Cell::Live,
        Cell::Dead,
        Cell::Live,
        Cell::Live,
    ];
    match Grid::create(3, 3, cells) {
        Ok(glider) => glider,
        Err(_) => vstd::pervasive::unreached(),
    }
}

} // verus!
