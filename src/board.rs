use vstd::arithmetic::div_mod::lemma_add_mod_noop_right;
use vstd::prelude::*;

verus! {

/// One for a live cell, zero for a dead one.
pub open spec fn live(alive: bool) -> int {
    if alive {
        1
    } else {
        0
    }
}

/// Conway's rule: a live cell with two or three live neighbors survives,
/// a dead cell with exactly three live neighbors is born, every other cell
/// is dead in the next generation.
pub open spec fn survives(alive: bool, neighbors: int) -> bool {
    if alive {
        neighbors == 2 || neighbors == 3
    } else {
        neighbors == 3
    }
}

/// A grid as a mathematical value: `cells[y][x]` is the cell at column `x`, row `y`.
pub struct Board {
    pub width: nat,
    pub height: nat,
    pub cells: Seq<Seq<bool>>,
}

impl Board {
    /// Both dimensions are positive and every row has `width` cells.
    pub open spec fn wf(self) -> bool {
        &&& 0 < self.width
        &&& 0 < self.height
        &&& self.cells.len() == self.height
        &&& forall|y: int| 0 <= y < self.height ==> #[trigger] self.cells[y].len() == self.width
    }

    /// The cell at any integer coordinates, wrapped onto the torus.
    pub open spec fn get(self, x: int, y: int) -> bool {
        self.cells[y % (self.height as int)][x % (self.width as int)]
    }

    /// The board with the cell at wrapped coordinates `(x, y)` replaced by `value`.
    pub open spec fn set(self, x: int, y: int, value: bool) -> Board {
        let cx = x % (self.width as int);
        let cy = y % (self.height as int);
        Board {
            width: self.width,
            height: self.height,
            cells: self.cells.update(cy, self.cells[cy].update(cx, value)),
        }
    }

    /// A board of the given size with every cell dead.
    pub open spec fn empty(width: nat, height: nat) -> Board {
        Board { width, height, cells: Seq::new(height, |y: int| Seq::new(width, |x: int| false)) }
    }

    /// The number of live cells among the eight wrapped Moore neighbors of `(x, y)`.
    pub open spec fn live_neighbors(self, x: int, y: int) -> int {
        live(self.get(x - 1, y - 1)) + live(self.get(x, y - 1)) + live(self.get(x + 1, y - 1))
            + live(self.get(x - 1, y)) + live(self.get(x + 1, y))
            + live(self.get(x - 1, y + 1)) + live(self.get(x, y + 1)) + live(self.get(x + 1, y + 1))
    }

    /// The next generation: every cell follows `survives` on this board's state.
    pub open spec fn next(self) -> Board {
        Board {
            width: self.width,
            height: self.height,
            cells: Seq::new(
                self.height,
                |y: int|
                    Seq::new(self.width, |x: int| survives(self.get(x, y), self.live_neighbors(x, y))),
            ),
        }
    }

    /// Counting the neighbors of the in-bounds copy of a coordinate gives the
    /// same number as counting those of the coordinate itself.
    pub proof fn lemma_live_neighbors_wrapped(self, x: int, y: int)
        requires
            self.wf(),
        ensures
            self.live_neighbors(x % (self.width as int), y % (self.height as int))
                == self.live_neighbors(x, y),
    {
        let w = self.width as int;
        let h = self.height as int;
        lemma_add_mod_noop_right(-1, x, w);
        lemma_add_mod_noop_right(0, x, w);
        lemma_add_mod_noop_right(1, x, w);
        lemma_add_mod_noop_right(-1, y, h);
        lemma_add_mod_noop_right(0, y, h);
        lemma_add_mod_noop_right(1, y, h);
    }
}

} // verus!
