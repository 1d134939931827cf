//! Index arithmetic on a torus: row-major positions and coordinates that
//! wrap around an edge.

use vstd::prelude::*;
use vstd::arithmetic::div_mod::lemma_fundamental_div_mod_converse;

verus! {

/// `x` brought into `0..m` by wrapping around.
#[verifier::opaque]
pub open spec fn wrap(x: int, m: int) -> int {
    x % m
}

/// A row-major index splits into its column and row again.
pub proof fn lemma_row_major(x: int, y: int, width: int, height: int)
    requires
        0 <= x < width,
        0 <= y < height,
    ensures
        0 <= y * width + x < width * height,
        (y * width + x) % width == x,
        (y * width + x) / width == y,
{
    lemma_fundamental_div_mod_converse(y * width + x, width, y, x);
    assert(y * width + x < width * height) by (nonlinear_arith)
        requires
            0 <= x < width,
            0 <= y < height,
    ;
    assert(0 <= y * width) by (nonlinear_arith)
        requires
            0 <= y,
            0 < width,
    ;
}

/// Every index below `width * height` is the row-major index of a position.
pub proof fn lemma_position_of_index(i: int, width: int, height: int)
    requires
        0 <= i < width * height,
        0 <= width,
        0 <= height,
    ensures
        0 < width,
        0 <= i % width < width,
        0 <= i / width < height,
        (i / width) * width + i % width == i,
{
    assert(0 < width) by (nonlinear_arith)
        requires
            0 <= i < width * height,
            0 <= width,
            0 <= height,
    ;
    vstd::arithmetic::div_mod::lemma_fundamental_div_mod(i, width);
    vstd::arithmetic::div_mod::lemma_mod_bound(i, width);
    let q = i / width;
    assert(width * q == q * width) by (nonlinear_arith);
    assert(0 <= q < height) by (nonlinear_arith)
        requires
            0 <= i < width * height,
            0 < width,
            i == q * width + i % width,
            0 <= i % width < width,
    ;
}

/// The neighbours of a coordinate inside `0..m`, wrapped around the edges.
pub proof fn lemma_wrap_neighbours(x: int, m: int)
    requires
        0 <= x < m,
    ensures
        wrap(x, m) == x,
        wrap(x - 1, m) == (if x == 0 { m - 1 } else { x - 1 }),
        wrap(x + 1, m) == (if x == m - 1 { 0 } else { x + 1 }),
{
    reveal(wrap);
    lemma_fundamental_div_mod_converse(x, m, 0, x);
    if x == 0 {
        lemma_fundamental_div_mod_converse(x - 1, m, -1, m - 1);
    } else {
        lemma_fundamental_div_mod_converse(x - 1, m, 0, x - 1);
    }
    if x == m - 1 {
        lemma_fundamental_div_mod_converse(x + 1, m, 1, 0);
    } else {
        lemma_fundamental_div_mod_converse(x + 1, m, 0, x + 1);
    }
}

/// A wrapped coordinate lies on the ring.
pub proof fn lemma_wrap_bounds(x: int, m: int)
    requires
        0 < m,
    ensures
        0 <= wrap(x, m) < m,
{
    reveal(wrap);
    vstd::arithmetic::div_mod::lemma_mod_bound(x, m);
}

/// Within a window no longer than the ring, two offsets from the same
/// start that wrap to the same coordinate are the same offset.
pub proof fn lemma_wrap_injective(start: int, a: int, b: int, m: int)
    requires
        0 < m,
        0 <= a < m,
        0 <= b < m,
        wrap(start + a, m) == wrap(start + b, m),
    ensures
        a == b,
{
    reveal(wrap);
    vstd::arithmetic::div_mod::lemma_fundamental_div_mod(start + a, m);
    vstd::arithmetic::div_mod::lemma_fundamental_div_mod(start + b, m);
    let qa = (start + a) / m;
    let qb = (start + b) / m;
    assert(a - b == m * (qa - qb)) by (nonlinear_arith)
        requires
            start + a == m * qa + (start + a) % m,
            start + b == m * qb + (start + b) % m,
            (start + a) % m == (start + b) % m,
    ;
    assert(qa == qb) by (nonlinear_arith)
        requires
            a - b == m * (qa - qb),
            -m < a - b < m,
            0 < m,
    ;
}

/// A coordinate lies `offset` positions after `origin` on the ring exactly
/// if its distance from `origin`, wrapped, is `offset`.
pub proof fn lemma_wrap_offset(x: int, origin: int, offset: int, m: int)
    requires
        0 <= x < m,
        0 <= offset < m,
    ensures
        x == wrap(origin + offset, m) <==> wrap(x - origin, m) == offset,
{
    reveal(wrap);
    vstd::arithmetic::div_mod::lemma_fundamental_div_mod(origin + offset, m);
    vstd::arithmetic::div_mod::lemma_fundamental_div_mod(x - origin, m);
    vstd::arithmetic::div_mod::lemma_mod_bound(origin + offset, m);
    vstd::arithmetic::div_mod::lemma_mod_bound(x - origin, m);
    if x == (origin + offset) % m {
        let q = (origin + offset) / m;
        assert(x - origin == (-q) * m + offset) by (nonlinear_arith)
            requires
                origin + offset == m * q + x,
        ;
        lemma_fundamental_div_mod_converse(x - origin, m, -q, offset);
    }
    if (x - origin) % m == offset {
        let q = (x - origin) / m;
        assert(origin + offset == (-q) * m + x) by (nonlinear_arith)
            requires
                x - origin == m * q + offset,
        ;
        lemma_fundamental_div_mod_converse(origin + offset, m, -q, x);
    }
}

/// Wrapping before a shift changes nothing once the sum is wrapped.
pub proof fn lemma_wrap_shift(a: int, b: int, m: int)
    requires
        0 < m,
    ensures
        wrap(wrap(a, m) + b, m) == wrap(a + b, m),
{
    reveal(wrap);
    vstd::arithmetic::div_mod::lemma_fundamental_div_mod(a, m);
    vstd::arithmetic::div_mod::lemma_fundamental_div_mod(a % m + b, m);
    vstd::arithmetic::div_mod::lemma_mod_bound(a % m + b, m);
    let qa = a / m;
    let qs = (a % m + b) / m;
    let r = (a % m + b) % m;
    assert(a + b == (qa + qs) * m + r) by (nonlinear_arith)
        requires
            a == m * qa + a % m,
            a % m + b == m * qs + r,
    ;
    lemma_fundamental_div_mod_converse(a + b, m, qa + qs, r);
}

/// The distance from `origin` of the neighbours of a coordinate: one
/// before and one after the distance of the coordinate itself.
pub proof fn lemma_wrap_distance_of_neighbours(x: int, origin: int, m: int)
    requires
        0 <= x < m,
    ensures
        0 <= wrap(x - origin, m) < m,
        wrap(wrap(x - 1, m) - origin, m) == wrap(wrap(x - origin, m) - 1, m),
        wrap(wrap(x + 1, m) - origin, m) == wrap(wrap(x - origin, m) + 1, m),
{
    lemma_wrap_bounds(x - origin, m);
    lemma_wrap_shift(x - origin, -1, m);
    lemma_wrap_shift(x - origin, 1, m);
    lemma_wrap_shift(x - 1, -origin, m);
    lemma_wrap_shift(x + 1, -origin, m);
}

/// The sum of two coordinates, wrapped into `0..m`, without overflow.
pub fn wrapping_sum(a: usize, b: usize, m: usize) -> (sum: usize)
    requires
        m > 0,
    ensures
        sum == wrap(a + b, m as int),
        sum < m,
{
    let ra: usize = a % m;
    let rb: usize = b % m;
    proof {
        reveal(wrap);
        vstd::arithmetic::div_mod::lemma_fundamental_div_mod(a as int, m as int);
        vstd::arithmetic::div_mod::lemma_fundamental_div_mod(b as int, m as int);
        let qa = a as int / m as int;
        let qb = b as int / m as int;
        assert(m * qa + m * qb == (qa + qb) * m) by (nonlinear_arith);
        assert((qa + qb + 1) * m == (qa + qb) * m + m) by (nonlinear_arith);
        if ra >= m - rb {
            lemma_fundamental_div_mod_converse(a + b, m as int, qa + qb + 1, ra - (m - rb));
        } else {
            lemma_fundamental_div_mod_converse(a + b, m as int, qa + qb, ra + rb);
        }
    }
    if ra >= m - rb {
        ra - (m - rb)
    } else {
        ra + rb
    }
}

} // verus!
