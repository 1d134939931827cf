//! What holds of every board: how a step reads its neighbours, which boards
//! a step leaves alone, and where a stamped pattern ends up.

use vstd::prelude::*;
use crate::grid::{Board, Cell};
use crate::torus::{
    lemma_position_of_index, lemma_row_major, lemma_wrap_bounds,
    lemma_wrap_distance_of_neighbours, lemma_wrap_injective, lemma_wrap_neighbours,
    lemma_wrap_offset, wrap,
};

verus! {

/// The coordinate before `x` on a ring of `m` positions.
pub open spec fn before(x: int, m: int) -> int {
    if x == 0 {
        m - 1
    } else {
        x - 1
    }
}

/// The coordinate after `x` on a ring of `m` positions.
pub open spec fn after(x: int, m: int) -> int {
    if x == m - 1 {
        0
    } else {
        x + 1
    }
}

/// 1 if the cell at `(x, y)` is live, else 0.
pub open spec fn live_at(board: Board, x: int, y: int) -> int {
    if board.at(x, y) == Cell::Live {
        1
    } else {
        0
    }
}

/// Two well-formed boards of the same dimensions that agree at every
/// position are the same board.
pub proof fn lemma_boards_equal(a: Board, b: Board)
    requires
        a.wf(),
        b.wf(),
        a.width == b.width,
        a.height == b.height,
        forall|x: int, y: int| a.contains(x, y) ==> a.at(x, y) == b.at(x, y),
    ensures
        a == b,
{
    assert forall|i: int| 0 <= i < a.cells.len() implies a.cells[i] == b.cells[i] by {
        lemma_position_of_index(i, a.width as int, a.height as int);
        assert(b.at(i % (a.width as int), i / (a.width as int)) == b.cells[i]);
    }
    assert(a.cells =~= b.cells);
}

/// A step keeps the dimensions, and the cell it leaves at a position is the
/// one that the rule gives for that position.
pub proof fn lemma_step_cell(board: Board, x: int, y: int)
    requires
        board.wf(),
        board.contains(x, y),
    ensures
        board.step().wf(),
        board.step().width == board.width,
        board.step().height == board.height,
        board.step().at(x, y) == board.next_cell(x, y),
{
    lemma_row_major(x, y, board.width as int, board.height as int);
}

/// A step keeps the dimensions of a board, and with them the number of
/// its cells.
pub proof fn lemma_step_keeps_dimensions(board: Board)
    requires
        board.wf(),
    ensures
        board.step().wf(),
        board.step().width == board.width,
        board.step().height == board.height,
{
}

/// A stamp keeps the dimensions of the target, and with them the number of
/// its cells, whatever the size of the pattern and wherever it is put.
pub proof fn lemma_stamp_keeps_dimensions(target: Board, x: int, y: int, source: Board)
    requires
        target.wf(),
    ensures
        target.stamp(x, y, source).wf(),
        target.stamp(x, y, source).width == target.width,
        target.stamp(x, y, source).height == target.height,
{
    if target.width > 0 && target.height > 0 {
        lemma_stamp_prefix_keeps_dimensions(target, x, y, source, source.cells.len());
    }
}

/// Copying cells one by one changes neither the dimensions of the target
/// nor the number of its cells.
proof fn lemma_stamp_prefix_keeps_dimensions(
    target: Board,
    x: int,
    y: int,
    source: Board,
    count: nat,
)
    requires
        target.wf(),
        target.width > 0,
        target.height > 0,
    ensures
        target.stamp_prefix(x, y, source, count).width == target.width,
        target.stamp_prefix(x, y, source, count).height == target.height,
        target.stamp_prefix(x, y, source, count).cells.len() == target.cells.len(),
    decreases count,
{
    if count > 0 {
        let k = count - 1;
        lemma_stamp_prefix_keeps_dimensions(target, x, y, source, k as nat);
        let column = wrap(x + source.column_of(k), target.width as int);
        let row = wrap(y + source.row_of(k), target.height as int);
        lemma_wrap_bounds(x + source.column_of(k), target.width as int);
        lemma_wrap_bounds(y + source.row_of(k), target.height as int);
        lemma_row_major(column, row, target.width as int, target.height as int);
    }
}

/// The eight neighbours of a position, read at coordinates inside the
/// board: opposite edges are adjacent.
pub proof fn lemma_live_neighbours(board: Board, x: int, y: int)
    requires
        board.contains(x, y),
    ensures
        board.live_neighbours(x, y) == {
            let w = board.width as int;
            let h = board.height as int;
            live_at(board, before(x, w), before(y, h)) + live_at(board, x, before(y, h))
                + live_at(board, after(x, w), before(y, h)) + live_at(board, before(x, w), y)
                + live_at(board, after(x, w), y) + live_at(board, before(x, w), after(y, h))
                + live_at(board, x, after(y, h)) + live_at(board, after(x, w), after(y, h))
        },
        board.contains(before(x, board.width as int), before(y, board.height as int)),
        board.contains(after(x, board.width as int), after(y, board.height as int)),
{
    lemma_wrap_neighbours(x, board.width as int);
    lemma_wrap_neighbours(y, board.height as int);
}

/// A board without a live cell stays as it is: its next generation is the
/// same all-dead board.
pub proof fn lemma_dead_board_is_stable(width: nat, height: nat)
    ensures
        Board::dead(width, height).step() == Board::dead(width, height),
        Board::dead(width, height).wf(),
{
    let dead = Board::dead(width, height);
    assert forall|x: int, y: int| dead.contains(x, y) implies #[trigger] dead.at(x, y)
        == Cell::Dead by {
        lemma_row_major(x, y, width as int, height as int);
    }
    assert forall|x: int, y: int| dead.contains(x, y) implies dead.step().at(x, y) == dead.at(
        x,
        y,
    ) by {
        lemma_step_cell(dead, x, y);
        lemma_live_neighbours(dead, x, y);
        lemma_wrap_neighbours(x, width as int);
        lemma_wrap_neighbours(y, height as int);
    }
    lemma_boards_equal(dead.step(), dead);
}

/// Whether the live cells of `board` are exactly the block of two by two
/// cells whose top left corner is `(left, top)`.
pub open spec fn is_block(board: Board, left: int, top: int) -> bool {
    forall|x: int, y: int|
        board.contains(x, y) ==> (#[trigger] board.at(x, y) == Cell::Live <==> left <= x <= left
            + 1 && top <= y <= top + 1)
}

/// A block of two by two live cells that touches no edge is a still life:
/// a step leaves the board as it is.
pub proof fn lemma_block_is_still(board: Board, left: int, top: int)
    requires
        board.wf(),
        is_block(board, left, top),
        1 <= left,
        left + 2 < board.width,
        1 <= top,
        top + 2 < board.height,
    ensures
        board.step() == board,
{
    assert forall|x: int, y: int| board.contains(x, y) implies board.step().at(x, y) == board.at(
        x,
        y,
    ) by {
        lemma_step_cell(board, x, y);
        lemma_live_neighbours(board, x, y);
    }
    assert(board.step().wf() && board.step().width == board.width && board.step().height
        == board.height) by {
        lemma_step_cell(board, 0, 0);
    }
    lemma_boards_equal(board.step(), board);
}

/// Whether `(x, y)` is one of the five cells of the glider
///
/// ```text
/// .O.
/// ..O
/// OOO
/// ```
///
/// drawn with the top left corner of its box at `(left, top)`, where
/// positions beyond an edge of the board wrap around.
pub open spec fn glider_cell(board: Board, left: int, top: int, x: int, y: int) -> bool {
    let w = board.width as int;
    let h = board.height as int;
    ||| x == wrap(left + 1, w) && y == wrap(top, h)
    ||| x == wrap(left + 2, w) && y == wrap(top + 1, h)
    ||| x == wrap(left, w) && y == wrap(top + 2, h)
    ||| x == wrap(left + 1, w) && y == wrap(top + 2, h)
    ||| x == wrap(left + 2, w) && y == wrap(top + 2, h)
}

/// Whether the live cells of `board` are exactly those of a glider whose
/// box has its top left corner at `(left, top)`.
pub open spec fn is_glider(board: Board, left: int, top: int) -> bool {
    forall|x: int, y: int|
        board.contains(x, y) ==> (#[trigger] board.at(x, y) == Cell::Live <==> glider_cell(
            board,
            left,
            top,
            x,
            y,
        ))
}

/// The cells of the glider after `k` steps, by their distance from the
/// corner of the box it started in.
spec fn glider_phase(k: int, dx: int, dy: int) -> bool {
    if k == 0 {
        (dx == 1 && dy == 0) || (dx == 2 && dy == 1) || (dx == 0 && dy == 2) || (dx == 1 && dy
            == 2) || (dx == 2 && dy == 2)
    } else if k == 1 {
        (dx == 0 && dy == 1) || (dx == 2 && dy == 1) || (dx == 1 && dy == 2) || (dx == 2 && dy
            == 2) || (dx == 1 && dy == 3)
    } else if k == 2 {
        (dx == 2 && dy == 1) || (dx == 0 && dy == 2) || (dx == 2 && dy == 2) || (dx == 1 && dy
            == 3) || (dx == 2 && dy == 3)
    } else if k == 3 {
        (dx == 1 && dy == 1) || (dx == 2 && dy == 2) || (dx == 3 && dy == 2) || (dx == 1 && dy
            == 3) || (dx == 2 && dy == 3)
    } else {
        (dx == 2 && dy == 1) || (dx == 3 && dy == 2) || (dx == 1 && dy == 3) || (dx == 2 && dy
            == 3) || (dx == 3 && dy == 3)
    }
}

/// Whether the live cells of `board` are those of the glider after `k`
/// steps, for a glider that started with its box at `(left, top)`.
spec fn shows_phase(board: Board, left: int, top: int, k: int) -> bool {
    forall|x: int, y: int|
        board.contains(x, y) ==> (#[trigger] board.at(x, y) == Cell::Live <==> glider_phase(
            k,
            wrap(x - left, board.width as int),
            wrap(y - top, board.height as int),
        ))
}

/// 1 if the glider after `k` steps has a cell at the distance, else 0.
spec fn phase_count(k: int, dx: int, dy: int) -> int {
    if glider_phase(k, dx, dy) {
        1
    } else {
        0
    }
}

/// The rule on distances: what the glider after `k` steps leaves at a
/// distance `(dx, dy)` on a ring of `w` by `h` positions.
spec fn phase_after(k: int, dx: int, dy: int, w: int, h: int) -> bool {
    let n = phase_count(k, before(dx, w), before(dy, h)) + phase_count(k, dx, before(dy, h))
        + phase_count(k, after(dx, w), before(dy, h)) + phase_count(k, before(dx, w), dy)
        + phase_count(k, after(dx, w), dy) + phase_count(k, before(dx, w), after(dy, h))
        + phase_count(k, dx, after(dy, h)) + phase_count(k, after(dx, w), after(dy, h));
    if glider_phase(k, dx, dy) {
        n == 2 || n == 3
    } else {
        n == 3
    }
}

/// On a ring of at least five by five positions the rule takes each shape
/// of the glider to the next one.
proof fn lemma_phase_rule(k: int, dx: int, dy: int, w: int, h: int)
    requires
        0 <= k < 4,
        5 <= w,
        5 <= h,
        0 <= dx < w,
        0 <= dy < h,
    ensures
        phase_after(k, dx, dy, w, h) == glider_phase(k + 1, dx, dy),
{
}

/// One step takes a board that shows the glider after `k` steps to one
/// that shows it after `k + 1` steps.
proof fn lemma_phase_step(board: Board, left: int, top: int, k: int)
    requires
        board.wf(),
        board.width >= 5,
        board.height >= 5,
        0 <= k < 4,
        shows_phase(board, left, top, k),
    ensures
        board.step().wf(),
        board.step().width == board.width,
        board.step().height == board.height,
        shows_phase(board.step(), left, top, k + 1),
{
    let w = board.width as int;
    let h = board.height as int;
    lemma_step_cell(board, 0, 0);
    assert forall|x: int, y: int| board.contains(x, y) implies (#[trigger] board.step().at(x, y)
        == Cell::Live <==> glider_phase(k + 1, wrap(x - left, w), wrap(y - top, h))) by {
        let dx = wrap(x - left, w);
        let dy = wrap(y - top, h);
        lemma_step_cell(board, x, y);
        lemma_live_neighbours(board, x, y);
        lemma_wrap_neighbours(x, w);
        lemma_wrap_neighbours(y, h);
        lemma_wrap_distance_of_neighbours(x, left, w);
        lemma_wrap_distance_of_neighbours(y, top, h);
        lemma_wrap_neighbours(dx, w);
        lemma_wrap_neighbours(dy, h);
        lemma_phase_rule(k, dx, dy, w, h);
    }
}

/// A glider travels: on a torus of at least five by five cells, four
/// steps take a glider to the same shape one column to the right and one
/// row down, modulo the dimensions of the board.
pub proof fn lemma_glider_travels(board: Board, left: int, top: int)
    requires
        board.wf(),
        board.width >= 5,
        board.height >= 5,
        is_glider(board, left, top),
    ensures
        is_glider(board.step().step().step().step(), left + 1, top + 1),
        board.step().step().step().step().wf(),
        board.step().step().step().step().width == board.width,
        board.step().step().step().step().height == board.height,
{
    let w = board.width as int;
    let h = board.height as int;
    assert forall|x: int, y: int| board.contains(x, y) implies (#[trigger] board.at(x, y)
        == Cell::Live <==> glider_phase(0, wrap(x - left, w), wrap(y - top, h))) by {
        lemma_wrap_offset(x, left, 0, w);
        lemma_wrap_offset(x, left, 1, w);
        lemma_wrap_offset(x, left, 2, w);
        lemma_wrap_offset(y, top, 0, h);
        lemma_wrap_offset(y, top, 1, h);
        lemma_wrap_offset(y, top, 2, h);
    }
    let first = board.step();
    lemma_phase_step(board, left, top, 0);
    let second = first.step();
    lemma_phase_step(first, left, top, 1);
    let third = second.step();
    lemma_phase_step(second, left, top, 2);
    let fourth = third.step();
    lemma_phase_step(third, left, top, 3);
    assert forall|x: int, y: int| fourth.contains(x, y) implies (#[trigger] fourth.at(x, y)
        == Cell::Live <==> glider_cell(fourth, left + 1, top + 1, x, y)) by {
        lemma_wrap_offset(x, left, 1, w);
        lemma_wrap_offset(x, left, 2, w);
        lemma_wrap_offset(x, left, 3, w);
        lemma_wrap_offset(y, top, 1, h);
        lemma_wrap_offset(y, top, 2, h);
        lemma_wrap_offset(y, top, 3, h);
    }
}

/// The column at which the source column `sx` of a stamp at `x` lands.
pub open spec fn landing_column(target: Board, x: int, sx: int) -> int {
    wrap(x + sx, target.width as int)
}

/// The row at which the source row `sy` of a stamp at `y` lands.
pub open spec fn landing_row(target: Board, y: int, sy: int) -> int {
    wrap(y + sy, target.height as int)
}

/// Whether a stamp of `source` at `(x, y)` writes to the position
/// `(px, py)` of `target`.
pub open spec fn covered(target: Board, x: int, y: int, source: Board, px: int, py: int) -> bool {
    exists|sx: int, sy: int|
        source.contains(sx, sy) && #[trigger] landing_column(target, x, sx) == px
            && #[trigger] landing_row(target, y, sy) == py
}

/// The index in the target at which the source cell `k` of a stamp lands.
spec fn landing_index(target: Board, x: int, y: int, source: Board, k: int) -> int {
    landing_row(target, y, source.row_of(k)) * target.width + landing_column(
        target,
        x,
        source.column_of(k),
    )
}

/// Where the source cell `k` lands: a position of the target, and one that
/// no other source cell lands on if the source is no larger than the target.
proof fn lemma_landing(target: Board, x: int, y: int, source: Board, k: int, other: int)
    requires
        target.wf(),
        source.wf(),
        target.width > 0,
        target.height > 0,
        0 <= k < source.cells.len(),
        0 <= other < source.cells.len(),
        source.width <= target.width,
        source.height <= target.height,
    ensures
        0 <= landing_index(target, x, y, source, k) < target.cells.len(),
        landing_index(target, x, y, source, k) == landing_index(target, x, y, source, other)
            ==> k == other,
{
    let w = target.width as int;
    let h = target.height as int;
    let sw = source.width as int;
    let sh = source.height as int;
    lemma_position_of_index(k, sw, sh);
    lemma_position_of_index(other, sw, sh);
    lemma_wrap_bounds(x + k % sw, w);
    lemma_wrap_bounds(y + k / sw, h);
    lemma_wrap_bounds(x + other % sw, w);
    lemma_wrap_bounds(y + other / sw, h);
    let column = landing_column(target, x, k % sw);
    let row = landing_row(target, y, k / sw);
    let other_column = landing_column(target, x, other % sw);
    let other_row = landing_row(target, y, other / sw);
    lemma_row_major(column, row, w, h);
    lemma_row_major(other_column, other_row, w, h);
    if landing_index(target, x, y, source, k) == landing_index(target, x, y, source, other) {
        lemma_wrap_injective(x, k % sw, other % sw, w);
        lemma_wrap_injective(y, k / sw, other / sw, h);
    }
}

/// After the first `count` source cells were copied, each of them is found
/// where it landed, and every other cell of the target is untouched.
proof fn lemma_stamp_prefix(target: Board, x: int, y: int, source: Board, count: nat)
    requires
        target.wf(),
        source.wf(),
        target.width > 0,
        target.height > 0,
        count <= source.cells.len(),
        source.width <= target.width,
        source.height <= target.height,
    ensures
        target.stamp_prefix(x, y, source, count).width == target.width,
        target.stamp_prefix(x, y, source, count).height == target.height,
        target.stamp_prefix(x, y, source, count).cells.len() == target.cells.len(),
        forall|k: int|
            0 <= k < count ==> target.stamp_prefix(x, y, source, count).cells[#[trigger] landing_index(
                target,
                x,
                y,
                source,
                k,
            )] == source.cells[k],
        forall|j: int|
            0 <= j < target.cells.len() && (forall|k: int|
                0 <= k < count ==> #[trigger] landing_index(target, x, y, source, k) != j)
                ==> #[trigger] target.stamp_prefix(x, y, source, count).cells[j]
                == target.cells[j],
    decreases count,
{
    if count > 0 {
        let last = count - 1;
        let now = target.stamp_prefix(x, y, source, count);
        lemma_stamp_prefix(target, x, y, source, last as nat);
        lemma_landing(target, x, y, source, last, last);
        assert forall|k: int| 0 <= k < count implies now.cells[#[trigger] landing_index(
            target,
            x,
            y,
            source,
            k,
        )] == source.cells[k] by {
            lemma_landing(target, x, y, source, k, last);
        }
    }
}

/// A pattern no larger than the target is stamped whole, wrapped around
/// the edges: each of its cells is found at its offset from `(x, y)`,
/// taken modulo the dimensions of the target, so what crosses an edge goes
/// on at the opposite edge. The dimensions stay, and so does every cell
/// that the pattern does not cover.
pub proof fn lemma_stamp_wraps(target: Board, x: int, y: int, source: Board)
    requires
        target.wf(),
        source.wf(),
        target.width > 0,
        target.height > 0,
        source.width <= target.width,
        source.height <= target.height,
    ensures
        target.stamp(x, y, source).wf(),
        target.stamp(x, y, source).width == target.width,
        target.stamp(x, y, source).height == target.height,
        forall|sx: int, sy: int|
            source.contains(sx, sy) ==> target.stamp(x, y, source).at(
                #[trigger] landing_column(target, x, sx),
                #[trigger] landing_row(target, y, sy),
            ) == source.at(sx, sy),
        forall|px: int, py: int|
            target.contains(px, py) && !covered(target, x, y, source, px, py)
                ==> #[trigger] target.stamp(x, y, source).at(px, py) == target.at(px, py),
{
    let stamped = target.stamp(x, y, source);
    let w = target.width as int;
    let h = target.height as int;
    let sw = source.width as int;
    let sh = source.height as int;
    lemma_stamp_prefix(target, x, y, source, source.cells.len());
    assert forall|sx: int, sy: int| source.contains(sx, sy) implies stamped.at(
        #[trigger] landing_column(target, x, sx),
        #[trigger] landing_row(target, y, sy),
    ) == source.at(sx, sy) by {
        lemma_row_major(sx, sy, sw, sh);
        let k = sy * sw + sx;
        assert(landing_index(target, x, y, source, k) == landing_row(target, y, sy) * w
            + landing_column(target, x, sx));
    }
    assert forall|px: int, py: int|
        target.contains(px, py) && !covered(
            target,
            x,
            y,
            source,
            px,
            py,
        ) implies #[trigger] stamped.at(px, py) == target.at(px, py) by {
        lemma_row_major(px, py, w, h);
        let j = py * w + px;
        assert forall|k: int| 0 <= k < source.cells.len() implies #[trigger] landing_index(
            target,
            x,
            y,
            source,
            k,
        ) != j by {
            lemma_position_of_index(k, sw, sh);
            lemma_wrap_bounds(x + k % sw, w);
            lemma_wrap_bounds(y + k / sw, h);
            let column = landing_column(target, x, k % sw);
            let row = landing_row(target, y, k / sw);
            lemma_row_major(column, row, w, h);
        }
    }
}

} // verus!
