//! Cells, the mathematical board, and the toroidal transition rule.

use vstd::prelude::*;
use rand::rngs::StdRng;
use crate::random::choose_cell;
use crate::torus::{lemma_position_of_index, lemma_row_major, lemma_wrap_neighbours, wrap};

verus! {

/// The state of one grid position.
#[derive(Clone, Copy, Debug, PartialEq, Eq, Structural)]
pub enum Cell {
    Dead,
    Live,
}

impl Cell {
    /// Whether the cell is alive.
    pub fn is_live(&self) -> (live: bool)
        ensures
            live == (*self == Cell::Live),
    {
        match self {
            Cell::Live => true,
            Cell::Dead => false,
        }
    }
}

/// The mathematical model of a grid: its dimensions and its cells in
/// row-major order.
pub struct Board {
    pub width: nat,
    pub height: nat,
    pub cells: Seq<Cell>,
}

impl Board {
    /// The cell sequence holds exactly one cell per position.
    pub open spec fn wf(self) -> bool {
        self.cells.len() == self.width * self.height
    }

    /// Whether `(x, y)` names a position of the board.
    pub open spec fn contains(self, x: int, y: int) -> bool {
        0 <= x < self.width && 0 <= y < self.height
    }

    /// The cell at column `x` of row `y`.
    pub open spec fn at(self, x: int, y: int) -> Cell {
        self.cells[y * self.width + x]
    }

    /// The board of the given dimensions on which every cell is dead.
    pub open spec fn dead(width: nat, height: nat) -> Board {
        Board { width, height, cells: Seq::new(width * height, |i: int| Cell::Dead) }
    }

    /// One row of the board, left to right.
    pub open spec fn row(self, y: int) -> Seq<Cell> {
        Seq::new(self.width, |x: int| self.at(x, y))
    }

    /// The column of the cell with row-major index `i`.
    pub open spec fn column_of(self, i: int) -> int {
        i % (self.width as int)
    }

    /// The row of the cell with row-major index `i`.
    pub open spec fn row_of(self, i: int) -> int {
        i / (self.width as int)
    }

    /// The board with the cell at `(x, y)` replaced.
    pub open spec fn set(self, x: int, y: int, cell: Cell) -> Board {
        Board { cells: self.cells.update(y * self.width + x, cell), ..self }
    }

    /// The board after the first `count` cells of `source`, taken row by
    /// row, were copied to the positions that start at `(x, y)` and wrap
    /// around the edges.
    pub open spec fn stamp_prefix(self, x: int, y: int, source: Board, count: nat) -> Board
        decreases count,
    {
        if count == 0 {
            self
        } else {
            let k = count - 1;
            self.stamp_prefix(x, y, source, k as nat).set(
                wrap(x + source.column_of(k), self.width as int),
                wrap(y + source.row_of(k), self.height as int),
                source.cells[k],
            )
        }
    }

    /// The board after all of `source` was copied to the positions that
    /// start at `(x, y)`. A board without positions stays as it is.
    pub open spec fn stamp(self, x: int, y: int, source: Board) -> Board {
        if self.width == 0 || self.height == 0 {
            self
        } else {
            self.stamp_prefix(x, y, source, source.cells.len())
        }
    }

    /// The cell found at `(x, y)` once both coordinates are wrapped around
    /// the edges of the board.
    pub open spec fn wrapped(self, x: int, y: int) -> Cell {
        self.at(wrap(x, self.width as int), wrap(y, self.height as int))
    }

    /// 1 if the cell at the wrapped position is live, else 0.
    pub open spec fn alive(self, x: int, y: int) -> int {
        if self.wrapped(x, y) == Cell::Live {
            1
        } else {
            0
        }
    }

    /// The number of live cells among the eight neighbours of `(x, y)`,
    /// where opposite edges are adjacent.
    pub open spec fn live_neighbours(self, x: int, y: int) -> int {
        self.alive(x - 1, y - 1) + self.alive(x, y - 1) + self.alive(x + 1, y - 1)
            + self.alive(x - 1, y) + self.alive(x + 1, y)
            + self.alive(x - 1, y + 1) + self.alive(x, y + 1) + self.alive(x + 1, y + 1)
    }

    /// The state of `(x, y)` in the next generation: a live cell survives
    /// with two or three live neighbours, a dead cell comes alive with
    /// exactly three.
    pub open spec fn next_cell(self, x: int, y: int) -> Cell {
        let n = self.live_neighbours(x, y);
        if self.at(x, y) == Cell::Live {
            if n == 2 || n == 3 {
                Cell::Live
            } else {
                Cell::Dead
            }
        } else {
            if n == 3 {
                Cell::Live
            } else {
                Cell::Dead
            }
        }
    }

    /// The next generation: every cell is computed from this board alone.
    pub open spec fn step(self) -> Board {
        Board {
            width: self.width,
            height: self.height,
            cells: Seq::new(
                self.cells.len(),
                |i: int| self.next_cell(self.column_of(i), self.row_of(i)),
            ),
        }
    }
}

/// Why a grid could not be built.
#[derive(Clone, Copy, Debug, PartialEq, Eq, Structural)]
pub enum GridError {
    /// The number of cells is not the product of width and height.
    DimensionMismatch,
}

/// A rectangular buffer of cells with fixed dimensions. It always holds
/// exactly `width * height` cells, in row-major order.
#[derive(Debug, PartialEq, Eq)]
pub struct Grid {
    width: usize,
    height: usize,
    cells: Vec<Cell>,
}

impl View for Grid {
    type V = Board;

    closed spec fn view(&self) -> Board {
        Board { width: self.width as nat, height: self.height as nat, cells: self.cells@ }
    }
}

impl Clone for Grid {
    /// A grid with the same dimensions and cells.
    fn clone(&self) -> (copy: Grid)
        ensures
            copy@ == self@,
            copy@.wf(),
    {
        proof {
            use_type_invariant(self);
        }
        let cells: Vec<Cell> = self.cells.clone();
        Grid { width: self.width, height: self.height, cells }
    }
}

impl Grid {
    #[verifier::type_invariant]
    spec fn inv(self) -> bool {
        self.cells@.len() == self.width * self.height
    }

    /// A grid over the given cells, which are its rows from top to bottom,
    /// each from left to right.
    pub fn create(width: usize, height: usize, cells: Vec<Cell>) -> (result: Result<Grid, GridError>)
        ensures
            cells@.len() == width * height ==> result is Ok && result->Ok_0@.wf()
                && result->Ok_0@ == (Board {
                width: width as nat,
                height: height as nat,
                cells: cells@,
            }),
            cells@.len() != width * height ==> result == Err::<Grid, GridError>(
                GridError::DimensionMismatch,
            ),
    {
        let count: usize = cells.len();
        match width.checked_mul(height) {
            Some(area) => {
                if count == area {
                    Ok(Grid { width, height, cells })
                } else {
                    Err(GridError::DimensionMismatch)
                }
            },
            None => Err(GridError::DimensionMismatch),
        }
    }

    /// A grid whose cell at `(x, y)` is what `f` returns for `(x, y)`.
    /// `f` is called once for each position, row by row.
    pub fn create_from_function<F: Fn(usize, usize) -> Cell>(
        width: usize,
        height: usize,
        f: F,
    ) -> (grid: Grid)
        requires
            width * height <= usize::MAX,
            forall|x: usize, y: usize| x < width && y < height ==> call_requires(f, (x, y)),
        ensures
            grid@.width == width,
            grid@.height == height,
            grid@.wf(),
            forall|x: usize, y: usize|
                x < width && y < height ==> call_ensures(
                    f,
                    (x, y),
                    #[trigger] grid@.at(x as int, y as int),
                ),
    {
        let total: usize = width * height;
        let mut cells: Vec<Cell> = Vec::with_capacity(total);
        let mut i: usize = 0;
        while i < total
            invariant
                i <= total,
                total == width * height,
                cells@.len() == i,
                forall|x: usize, y: usize| x < width && y < height ==> call_requires(f, (x, y)),
                forall|k: int|
                    0 <= k < i ==> call_ensures(
                        f,
                        ((k % (width as int)) as usize, (k / (width as int)) as usize),
                        #[trigger] cells@[k],
                    ),
            decreases total - i,
        {
            proof {
                lemma_position_of_index(i as int, width as int, height as int);
            }
            let x: usize = i % width;
            let y: usize = i / width;
            let cell: Cell = f(x, y);
            cells.push(cell);
            i += 1;
        }
        let grid = Grid { width, height, cells };
        assert forall|x: usize, y: usize| x < width && y < height implies call_ensures(
            f,
            (x, y),
            #[trigger] grid@.at(x as int, y as int),
        ) by {
            lemma_row_major(x as int, y as int, width as int, height as int);
        }
        grid
    }

    /// A grid in which every cell is dead or live as `rng` decides, each
    /// cell by a draw of its own.
    pub fn create_random(width: usize, height: usize, rng: &mut StdRng) -> (grid: Grid)
        requires
            width * height <= usize::MAX,
        ensures
            grid@.width == width,
            grid@.height == height,
            grid@.wf(),
    {
        let cells: Vec<Cell> = Grid::random_cells(width * height, rng);
        match Grid::create(width, height, cells) {
            Ok(grid) => grid,
            Err(_) => vstd::pervasive::unreached(),
        }
    }

    /// As many cells as asked for, each dead or live as `rng` decides.
    fn random_cells(total: usize, rng: &mut StdRng) -> (cells: Vec<Cell>)
        ensures
            cells@.len() == total,
    {
        let choices: [Cell; 2] = [Cell::Dead, Cell::Live];
        let mut cells: Vec<Cell> = Vec::with_capacity(total);
        let mut i: usize = 0;
        while i < total
            invariant
                i <= total,
                cells@.len() == i,
                choices@.len() == 2,
            decreases total - i,
        {
            let cell: Cell = match choose_cell(rng, &choices) {
                Some(cell) => cell,
                None => vstd::pervasive::unreached(),
            };
            cells.push(cell);
            i += 1;
        }
        cells
    }

    /// A grid of the given dimensions with every cell dead.
    pub fn create_dead(width: usize, height: usize) -> (grid: Grid)
        requires
            width * height <= usize::MAX,
        ensures
            grid@ == Board::dead(width as nat, height as nat),
            grid@.wf(),
    {
        let area: usize = width * height;
        let cells: Vec<Cell> = vec![Cell::Dead; area];
        assert(cells@ =~= Seq::new((width * height) as nat, |i: int| Cell::Dead));
        Grid { width, height, cells }
    }

    /// The cell at column `x` of row `y`.
    pub fn cell(&self, x: usize, y: usize) -> (cell: Cell)
        requires
            self@.contains(x as int, y as int),
        ensures
            cell == self@.at(x as int, y as int),
    {
        proof {
            use_type_invariant(self);
            vstd::std_specs::vec::axiom_spec_len(&self.cells);
            lemma_row_major(x as int, y as int, self.width as int, self.height as int);
        }
        self.cells[y * self.width + x]
    }

    /// 1 if the cell at `(x, y)` is live, else 0. The coordinates `(nx, ny)`
    /// name the same position before wrapping.
    fn alive(&self, x: usize, y: usize, Ghost(nx): Ghost<int>, Ghost(ny): Ghost<int>) -> (n: u8)
        requires
            self@.contains(x as int, y as int),
            wrap(nx, self@.width as int) == x,
            wrap(ny, self@.height as int) == y,
        ensures
            n == self@.alive(nx, ny),
            n <= 1,
    {
        if self.cell(x, y).is_live() {
            1
        } else {
            0
        }
    }

    /// Counts the live cells among the eight neighbours of `(x, y)`.
    fn live_neighbours(&self, x: usize, y: usize) -> (n: u8)
        requires
            self@.contains(x as int, y as int),
        ensures
            n == self@.live_neighbours(x as int, y as int),
    {
        let left: usize = if x == 0 { self.width - 1 } else { x - 1 };
        let right: usize = if x == self.width - 1 { 0 } else { x + 1 };
        let up: usize = if y == 0 { self.height - 1 } else { y - 1 };
        let down: usize = if y == self.height - 1 { 0 } else { y + 1 };
        proof {
            lemma_wrap_neighbours(x as int, self.width as int);
            lemma_wrap_neighbours(y as int, self.height as int);
        }
        let a: u8 = self.alive(left, up, Ghost(x - 1), Ghost(y - 1));
        let b: u8 = self.alive(x, up, Ghost(x as int), Ghost(y - 1));
        let c: u8 = self.alive(right, up, Ghost(x + 1), Ghost(y - 1));
        let d: u8 = self.alive(left, y, Ghost(x - 1), Ghost(y as int));
        let e: u8 = self.alive(right, y, Ghost(x + 1), Ghost(y as int));
        let f: u8 = self.alive(left, down, Ghost(x - 1), Ghost(y + 1));
        let g: u8 = self.alive(x, down, Ghost(x as int), Ghost(y + 1));
        let h: u8 = self.alive(right, down, Ghost(x + 1), Ghost(y + 1));
        a + b + c + d + e + f + g + h
    }

    /// The next generation. The result is computed from this grid alone,
    /// which stays as it is.
    pub fn step(&self) -> (next: Grid)
        ensures
            next@ == self@.step(),
            next@.wf(),
    {
        proof {
            use_type_invariant(self);
        }
        let total: usize = self.cells.len();
        let mut cells: Vec<Cell> = Vec::with_capacity(total);
        let mut i: usize = 0;
        while i < total
            invariant
                i <= total,
                total == self.cells@.len(),
                total == self.width * self.height,
                cells@.len() == i,
                forall|k: int|
                    0 <= k < i ==> cells@[k] == self@.next_cell(
                        self@.column_of(k),
                        self@.row_of(k),
                    ),
            decreases total - i,
        {
            proof {
                lemma_position_of_index(i as int, self.width as int, self.height as int);
            }
            let x: usize = i % self.width;
            let y: usize = i / self.width;
            let n: u8 = self.live_neighbours(x, y);
            let next: Cell = if self.cells[i].is_live() {
                if n == 2 || n == 3 {
                    Cell::Live
                } else {
                    Cell::Dead
                }
            } else {
                if n == 3 {
                    Cell::Live
                } else {
                    Cell::Dead
                }
            };
            cells.push(next);
            i += 1;
        }
        assert(cells@ =~= self@.step().cells);
        Grid { width: self.width, height: self.height, cells }
    }

    /// Copies the cells of `source` into this grid, row by row, the first
    /// to `(x, y)`. A position beyond an edge continues at the opposite
    /// edge.
    pub fn write_cells(&mut self, x: usize, y: usize, source: &Grid)
        ensures
            final(self)@ == old(self)@.stamp(x as int, y as int, source@),
            final(self)@.width == old(self)@.width,
            final(self)@.height == old(self)@.height,
            final(self)@.wf(),
    {
        proof {
            use_type_invariant(&*self);
            use_type_invariant(source);
            vstd::std_specs::vec::axiom_spec_len(&self.cells);
        }
        if self.width == 0 || self.height == 0 {
            return;
        }
        let total: usize = source.cells.len();
        let mut k: usize = 0;
        while k < total
            invariant
                k <= total,
                self.width * self.height <= usize::MAX,
                total == source.cells@.len(),
                total == source.width * source.height,
                self.width == old(self).width,
                self.height == old(self).height,
                self.width > 0,
                self.height > 0,
                self.cells@.len() == self.width * self.height,
                self@ == old(self)@.stamp_prefix(x as int, y as int, source@, k as nat),
            decreases total - k,
        {
            proof {
                lemma_position_of_index(k as int, source.width as int, source.height as int);
            }
            let column: usize = crate::torus::wrapping_sum(x, k % source.width, self.width);
            let row: usize = crate::torus::wrapping_sum(y, k / source.width, self.height);
            proof {
                lemma_row_major(column as int, row as int, self.width as int, self.height as int);
            }
            self.cells[row * self.width + column] = source.cells[k];
            k += 1;
        }
    }

    /// The rows from top to bottom, each from left to right.
    pub fn iterate_rows(&self) -> (rows: Vec<Vec<Cell>>)
        ensures
            rows@.len() == self@.height,
            forall|y: int| 0 <= y < rows@.len() ==> (#[trigger] rows@[y])@ == self@.row(y),
    {
        proof {
            use_type_invariant(self);
        }
        let mut rows: Vec<Vec<Cell>> = Vec::with_capacity(self.height);
        let mut y: usize = 0;
        while y < self.height
            invariant
                y <= self.height,
                self.cells@.len() == self.width * self.height,
                rows@.len() == y,
                forall|j: int| 0 <= j < y ==> (#[trigger] rows@[j])@ == self@.row(j),
            decreases self.height - y,
        {
            let mut row: Vec<Cell> = Vec::with_capacity(self.width);
            let mut x: usize = 0;
            while x < self.width
                invariant
                    x <= self.width,
                    y < self.height,
                    self.cells@.len() == self.width * self.height,
                    row@.len() == x,
                    forall|i: int| 0 <= i < x ==> row@[i] == self@.at(i, y as int),
                decreases self.width - x,
            {
                row.push(self.cell(x, y));
                x += 1;
            }
            rows.push(row);
            y += 1;
        }
        rows
    }

    /// Every cell with its column and row, row by row.
    pub fn iterate_cells(&self) -> (cells: Vec<(usize, usize, Cell)>)
        ensures
            cells@.len() == self@.cells.len(),
            forall|i: int|
                0 <= i < cells@.len() ==> #[trigger] cells@[i] == (
                    self@.column_of(i) as usize,
                    self@.row_of(i) as usize,
                    self@.cells[i],
                ),
    {
        proof {
            use_type_invariant(self);
        }
        let total: usize = self.cells.len();
        let mut cells: Vec<(usize, usize, Cell)> = Vec::with_capacity(total);
        let mut i: usize = 0;
        while i < total
            invariant
                i <= total,
                total == self.cells@.len(),
                total == self.width * self.height,
                cells@.len() == i,
                forall|k: int|
                    0 <= k < i ==> #[trigger] cells@[k] == (
                        self@.column_of(k) as usize,
                        self@.row_of(k) as usize,
                        self@.cells[k],
                    ),
            decreases total - i,
        {
            proof {
                lemma_position_of_index(i as int, self.width as int, self.height as int);
            }
            cells.push((i % self.width, i / self.width, self.cells[i]));
            i += 1;
        }
        cells
    }

    /// The number of columns. The grid holds one cell for each position,
    /// and their number fits the machine word.
    pub fn width(&self) -> (w: usize)
        ensures
            w == self@.width,
            self@.wf(),
            self@.cells.len() <= usize::MAX,
    {
        proof {
            use_type_invariant(self);
            vstd::std_specs::vec::axiom_spec_len(&self.cells);
        }
        self.width
    }

    /// The number of rows. The grid holds one cell for each position, and
    /// their number fits the machine word.
    pub fn height(&self) -> (h: usize)
        ensures
            h == self@.height,
            self@.wf(),
            self@.cells.len() <= usize::MAX,
    {
        proof {
            use_type_invariant(self);
            vstd::std_specs::vec::axiom_spec_len(&self.cells);
        }
        self.height
    }
}

} // verus!
