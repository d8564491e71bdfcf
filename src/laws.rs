use crate::board::{live, survives, Board};
use vstd::arithmetic::div_mod::{
    lemma_add_mod_noop_right, lemma_fundamental_div_mod_converse, lemma_mod_multiples_vanish,
    lemma_mod_twice, lemma_small_mod,
};
use vstd::prelude::*;

verus! {

/// How far `i` lies past `c` on a cycle of length `n`, in `[0, n)`.
pub open spec fn cycle_offset(i: int, c: int, n: int) -> int {
    (i - c) % n
}

/// Whether `i` is `c` or one of its two neighbors on a cycle of length `n`.
pub open spec fn within_one(i: int, c: int, n: int) -> bool {
    let d = cycle_offset(i, c, n);
    d == 0 || d == 1 || d == n - 1
}

/// The live cells of `b` are exactly the 2×2 block whose top-left cell is `(px, py)`.
pub open spec fn is_block(b: Board, px: int, py: int) -> bool {
    forall|x: int, y: int|
        #[trigger] b.get(x, y) == (cycle_offset(x, px, b.width as int) < 2 && cycle_offset(
            y,
            py,
            b.height as int,
        ) < 2)
}

/// The live cells of `b` are exactly three in row `py`, centered on column `px`.
pub open spec fn is_horizontal_blinker(b: Board, px: int, py: int) -> bool {
    forall|x: int, y: int|
        #[trigger] b.get(x, y) == (within_one(x, px, b.width as int) && cycle_offset(
            y,
            py,
            b.height as int,
        ) == 0)
}

/// The live cells of `b` are exactly three in column `px`, centered on row `py`.
pub open spec fn is_vertical_blinker(b: Board, px: int, py: int) -> bool {
    forall|x: int, y: int|
        #[trigger] b.get(x, y) == (cycle_offset(x, px, b.width as int) == 0 && within_one(
            y,
            py,
            b.height as int,
        ))
}

/// How many of `i - 1`, `i` and `i + 1` satisfy `p`.
spec fn count3(p: spec_fn(int) -> bool, i: int) -> int {
    live(p(i - 1)) + live(p(i)) + live(p(i + 1))
}

/// Stepping one place forward or back moves the cycle offset by one, wrapping at the ends.
proof fn lemma_offset_step(i: int, c: int, n: int)
    requires
        0 < n,
    ensures
        0 <= cycle_offset(i, c, n) < n,
        cycle_offset(i + 1, c, n) == if cycle_offset(i, c, n) == n - 1 {
            0
        } else {
            cycle_offset(i, c, n) + 1
        },
        cycle_offset(i - 1, c, n) == if cycle_offset(i, c, n) == 0 {
            n - 1
        } else {
            cycle_offset(i, c, n) - 1
        },
{
    let u = (i - c) % n;
    lemma_add_mod_noop_right(1, i - c, n);
    lemma_add_mod_noop_right(-1, i - c, n);
    assert(i + 1 - c == 1 + (i - c));
    assert(i - 1 - c == -1 + (i - c));
    if u + 1 < n {
        lemma_small_mod((u + 1) as nat, n as nat);
    } else {
        lemma_fundamental_div_mod_converse(u + 1, n, 1, 0);
    }
    if u >= 1 {
        lemma_small_mod((u - 1) as nat, n as nat);
    } else {
        lemma_fundamental_div_mod_converse(-1, n, -1, n - 1);
    }
}

/// On a board whose live cells are a product of a column set and a row set,
/// the neighbor count is the product of the two one-dimensional counts, less the cell itself.
proof fn lemma_product_neighbors(
    b: Board,
    cols: spec_fn(int) -> bool,
    rows: spec_fn(int) -> bool,
    x: int,
    y: int,
)
    requires
        forall|i: int, j: int| #[trigger] b.get(i, j) == (cols(i) && rows(j)),
    ensures
        b.live_neighbors(x, y) == count3(cols, x) * count3(rows, y) - live(cols(x) && rows(y)),
{
    assert forall|i: int, j: int| #[trigger] live(b.get(i, j)) == live(cols(i)) * live(rows(j)) by {
        assert(b.get(i, j) == (cols(i) && rows(j)));
    }
    let (c0, c1, c2) = (live(cols(x - 1)), live(cols(x)), live(cols(x + 1)));
    let (r0, r1, r2) = (live(rows(y - 1)), live(rows(y)), live(rows(y + 1)));
    assert((c0 + c1 + c2) * (r0 + r1 + r2) == c0 * r0 + c1 * r0 + c2 * r0 + c0 * r1 + c1 * r1
        + c2 * r1 + c0 * r2 + c1 * r2 + c2 * r2) by (nonlinear_arith);
}

/// Cell `(x, y)` of the next generation follows the rule on the neighbors of `(x, y)`,
/// at any integer coordinates.
pub proof fn lemma_next_get(b: Board, x: int, y: int)
    requires
        b.wf(),
    ensures
        b.next().get(x, y) == survives(b.get(x, y), b.live_neighbors(x, y)),
{
    let w = b.width as int;
    let h = b.height as int;
    lemma_mod_twice(x, w);
    lemma_mod_twice(y, h);
    b.lemma_live_neighbors_wrapped(x, y);
    assert(0 <= x % w < w && 0 <= y % h < h);
}

/// Two well-formed boards of one size that agree on every cell are equal.
proof fn lemma_equal_boards(a: Board, b: Board)
    requires
        a.wf(),
        b.wf(),
        a.width == b.width,
        a.height == b.height,
        forall|x: int, y: int| #[trigger] a.get(x, y) == b.get(x, y),
    ensures
        a == b,
{
    let w = a.width as int;
    let h = a.height as int;
    assert forall|y: int| 0 <= y < h implies #[trigger] a.cells[y] =~= b.cells[y] by {
        assert forall|x: int| 0 <= x < w implies a.cells[y][x] == b.cells[y][x] by {
            lemma_small_mod(x as nat, w as nat);
            lemma_small_mod(y as nat, h as nat);
            assert(a.get(x, y) == b.get(x, y));
        }
    }
    assert(a.cells =~= b.cells);
}

/// The next generation has the size of the board it came from.
pub proof fn lemma_next_wf(b: Board)
    requires
        b.wf(),
    ensures
        b.next().wf(),
        b.next().width == b.width,
        b.next().height == b.height,
{
}

/// Moving either coordinate by a whole number of widths or heights reaches the same cell.
pub proof fn lemma_wraparound(b: Board, x: int, y: int, k: int)
    requires
        b.wf(),
    ensures
        b.get(x + k * b.width, y) == b.get(x, y),
        b.get(x, y + k * b.height) == b.get(x, y),
{
    let w = b.width as int;
    let h = b.height as int;
    lemma_mod_multiples_vanish(k, x, w);
    lemma_mod_multiples_vanish(k, y, h);
    assert(x + k * w == w * k + x) by (nonlinear_arith);
    assert(y + k * h == h * k + y) by (nonlinear_arith);
}

/// A cell has between zero and eight live neighbors.
pub proof fn lemma_live_neighbors_bounds(b: Board, x: int, y: int)
    ensures
        0 <= b.live_neighbors(x, y) <= 8,
{
}

/// On a 1×1 board all eight neighbors of a cell are the cell itself.
pub proof fn lemma_one_by_one_neighbors(b: Board, x: int, y: int)
    requires
        b.wf(),
        b.width == 1,
        b.height == 1,
    ensures
        b.live_neighbors(x, y) == 8 * live(b.get(x, y)),
{
    lemma_fundamental_div_mod_converse(x - 1, 1, x - 1, 0);
    lemma_fundamental_div_mod_converse(x, 1, x, 0);
    lemma_fundamental_div_mod_converse(x + 1, 1, x + 1, 0);
    lemma_fundamental_div_mod_converse(y - 1, 1, y - 1, 0);
    lemma_fundamental_div_mod_converse(y, 1, y, 0);
    lemma_fundamental_div_mod_converse(y + 1, 1, y + 1, 0);
}

/// On a 2×2 board the cell beside `(x, y)` in its row counts twice among its
/// neighbors, the cell beside it in its column twice, and the diagonal cell four times.
pub proof fn lemma_two_by_two_neighbors(b: Board, x: int, y: int)
    requires
        b.wf(),
        b.width == 2,
        b.height == 2,
    ensures
        b.live_neighbors(x, y) == 2 * live(b.get(x + 1, y)) + 2 * live(b.get(x, y + 1)) + 4 * live(
            b.get(x + 1, y + 1),
        ),
{
    lemma_mod_multiples_vanish(-1, x + 1, 2);
    lemma_mod_multiples_vanish(-1, y + 1, 2);
    assert(2 * -1 + (x + 1) == x - 1);
    assert(2 * -1 + (y + 1) == y - 1);
}

/// A live cell without a live neighbor is dead in the next generation.
pub proof fn lemma_isolated_cell_dies(b: Board, x: int, y: int)
    requires
        b.wf(),
        b.get(x, y),
        b.live_neighbors(x, y) == 0,
    ensures
        !b.next().get(x, y),
{
    lemma_next_get(b, x, y);
}

/// The next generation depends on the board alone: equal boards have equal
/// successors, and equal successors of those.
pub proof fn lemma_next_deterministic(a: Board, b: Board)
    requires
        a == b,
    ensures
        a.next() == b.next(),
        a.next().next() == b.next().next(),
{
}

/// A lone 2×2 block on a board at least 4×4 is left unchanged by a generation.
pub proof fn lemma_block_still_life(b: Board, px: int, py: int)
    requires
        b.wf(),
        b.width >= 4,
        b.height >= 4,
        is_block(b, px, py),
    ensures
        b.next() == b,
{
    let w = b.width as int;
    let h = b.height as int;
    let cols = |i: int| cycle_offset(i, px, w) < 2;
    let rows = |j: int| cycle_offset(j, py, h) < 2;
    assert forall|x: int, y: int| #[trigger] b.next().get(x, y) == b.get(x, y) by {
        lemma_next_get(b, x, y);
        lemma_product_neighbors(b, cols, rows, x, y);
        lemma_offset_step(x, px, w);
        lemma_offset_step(y, py, h);
        let c = count3(cols, x);
        let r = count3(rows, y);
        assert(0 <= c <= 2 && 0 <= r <= 2);
        assert(c == 2 && r == 2 <== b.get(x, y));
        assert(c * r != 3) by (nonlinear_arith)
            requires
                0 <= c <= 2,
                0 <= r <= 2,
        ;
    }
    lemma_next_wf(b);
    lemma_equal_boards(b.next(), b);
}

/// A horizontal blinker on a board at least 5×5 stands vertical after one generation.
pub proof fn lemma_horizontal_blinker_turns(b: Board, px: int, py: int)
    requires
        b.wf(),
        b.width >= 5,
        b.height >= 5,
        is_horizontal_blinker(b, px, py),
    ensures
        is_vertical_blinker(b.next(), px, py),
{
    let w = b.width as int;
    let h = b.height as int;
    let cols = |i: int| within_one(i, px, w);
    let rows = |j: int| cycle_offset(j, py, h) == 0;
    lemma_next_wf(b);
    assert forall|x: int, y: int|
        #[trigger] b.next().get(x, y) == (cycle_offset(x, px, w) == 0 && within_one(y, py, h)) by {
        lemma_next_get(b, x, y);
        lemma_product_neighbors(b, cols, rows, x, y);
        lemma_offset_step(x, px, w);
        lemma_offset_step(y, py, h);
        let c = count3(cols, x);
        let r = count3(rows, y);
        assert(r == 0 || r == 1);
        assert(c * r == if r == 1 {
            c
        } else {
            0
        }) by (nonlinear_arith)
            requires
                r == 0 || r == 1,
        ;
    }
}

/// A vertical blinker on a board at least 5×5 lies horizontal after one generation.
pub proof fn lemma_vertical_blinker_turns(b: Board, px: int, py: int)
    requires
        b.wf(),
        b.width >= 5,
        b.height >= 5,
        is_vertical_blinker(b, px, py),
    ensures
        is_horizontal_blinker(b.next(), px, py),
{
    let w = b.width as int;
    let h = b.height as int;
    let cols = |i: int| cycle_offset(i, px, w) == 0;
    let rows = |j: int| within_one(j, py, h);
    lemma_next_wf(b);
    assert forall|x: int, y: int|
        #[trigger] b.next().get(x, y) == (within_one(x, px, w) && cycle_offset(y, py, h) == 0) by {
        lemma_next_get(b, x, y);
        lemma_product_neighbors(b, cols, rows, x, y);
        lemma_offset_step(x, px, w);
        lemma_offset_step(y, py, h);
        let c = count3(cols, x);
        let r = count3(rows, y);
        assert(c == 0 || c == 1);
        assert(c * r == if c == 1 {
            r
        } else {
            0
        }) by (nonlinear_arith)
            requires
                c == 0 || c == 1,
        ;
    }
}

/// A blinker on a board at least 5×5, in either orientation, is back where it
/// started after two generations.
pub proof fn lemma_blinker_period_two(b: Board, px: int, py: int)
    requires
        b.wf(),
        b.width >= 5,
        b.height >= 5,
        is_horizontal_blinker(b, px, py) || is_vertical_blinker(b, px, py),
    ensures
        b.next().next() == b,
{
    lemma_next_wf(b);
    lemma_next_wf(b.next());
    let b2 = b.next().next();
    if is_horizontal_blinker(b, px, py) {
        lemma_horizontal_blinker_turns(b, px, py);
        lemma_vertical_blinker_turns(b.next(), px, py);
        assert forall|x: int, y: int| #[trigger] b2.get(x, y) == b.get(x, y) by {
            assert(b2.get(x, y) == (within_one(x, px, b.width as int) && cycle_offset(y, py, b.height as int) == 0));
        }
    } else {
        lemma_vertical_blinker_turns(b, px, py);
        lemma_horizontal_blinker_turns(b.next(), px, py);
        assert forall|x: int, y: int| #[trigger] b2.get(x, y) == b.get(x, y) by {
            assert(b2.get(x, y) == (cycle_offset(x, px, b.width as int) == 0 && within_one(y, py, b.height as int)));
        }
    }
    lemma_equal_boards(b2, b);
}

} // verus!
